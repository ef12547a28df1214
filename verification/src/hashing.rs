use crate::util::push_char;
use sha2::Digest;
use vstd::prelude::*;

verus! {

/// The SHA-256 digest of a byte sequence.  The function of the bytes alone;
/// its 32-byte length and determinism are all the library assumes of it.
pub uninterp spec fn sha256_of(bytes: Seq<u8>) -> Seq<u8>;

/// Relies on sha2's `Sha256`: the digest depends on the input bytes alone
/// and is exactly 32 bytes long.
#[verifier::external_body]
pub fn sha256(bytes: &Vec<u8>) -> (r: Vec<u8>)
    ensures
        r@ == sha256_of(bytes@),
        r@.len() == 32,
{
    sha2::Sha256::digest(bytes.as_slice()).to_vec()
}

/// The lowercase hexadecimal digit for a value below sixteen.
pub open spec fn hex_digit_char(n: u8) -> char {
    if n == 0 {
        '0'
    } else if n == 1 {
        '1'
    } else if n == 2 {
        '2'
    } else if n == 3 {
        '3'
    } else if n == 4 {
        '4'
    } else if n == 5 {
        '5'
    } else if n == 6 {
        '6'
    } else if n == 7 {
        '7'
    } else if n == 8 {
        '8'
    } else if n == 9 {
        '9'
    } else if n == 10 {
        'a'
    } else if n == 11 {
        'b'
    } else if n == 12 {
        'c'
    } else if n == 13 {
        'd'
    } else if n == 14 {
        'e'
    } else {
        'f'
    }
}

fn hex_digit(n: u8) -> (c: char)
    requires
        n < 16,
    ensures
        c == hex_digit_char(n),
{
    if n == 0 {
        '0'
    } else if n == 1 {
        '1'
    } else if n == 2 {
        '2'
    } else if n == 3 {
        '3'
    } else if n == 4 {
        '4'
    } else if n == 5 {
        '5'
    } else if n == 6 {
        '6'
    } else if n == 7 {
        '7'
    } else if n == 8 {
        '8'
    } else if n == 9 {
        '9'
    } else if n == 10 {
        'a'
    } else if n == 11 {
        'b'
    } else if n == 12 {
        'c'
    } else if n == 13 {
        'd'
    } else if n == 14 {
        'e'
    } else {
        'f'
    }
}

/// The lowercase hexadecimal rendering of a byte sequence, two digits per
/// byte.
pub open spec fn hex_of_bytes(bytes: Seq<u8>) -> Seq<char>
    decreases bytes.len(),
{
    if bytes.len() == 0 {
        Seq::empty()
    } else {
        hex_of_bytes(bytes.drop_last()).push(hex_digit_char((bytes.last() / 16) as u8)).push(
            hex_digit_char((bytes.last() % 16) as u8),
        )
    }
}

pub fn bytes_to_hex(bytes: &Vec<u8>) -> (r: String)
    ensures
        r@ == hex_of_bytes(bytes@),
{
    let n = bytes.len();
    let mut s = String::new();
    let mut i: usize = 0;
    while i < n
        invariant
            0 <= i <= n,
            n == bytes@.len(),
            s@ == hex_of_bytes(bytes@.take(i as int)),
        decreases n - i,
    {
        let b = bytes[i];
        push_char(&mut s, hex_digit(b / 16));
        push_char(&mut s, hex_digit(b % 16));
        proof {
            assert(bytes@.take(i + 1).drop_last() =~= bytes@.take(i as int));
            assert(bytes@.take(i + 1).last() == bytes@[i as int]);
        }
        i += 1;
    }
    proof {
        assert(bytes@.take(n as int) =~= bytes@);
    }
    s
}

/// The big-endian, zero-padded, `k`-digit lowercase hexadecimal rendering of
/// a number.
pub open spec fn hexk_of(n: nat, k: nat) -> Seq<char>
    decreases k,
{
    if k == 0 {
        Seq::empty()
    } else {
        hexk_of(n / 16, (k - 1) as nat).push(hex_digit_char((n % 16) as u8))
    }
}

/// The sixteen-digit hexadecimal rendering of a 64-bit number, as identifier
/// suffixes use it.
pub open spec fn hex16_of(n: u64) -> Seq<char> {
    hexk_of(n as nat, 16)
}

pub fn u64_hexk(n: u64, k: u32) -> (r: String)
    ensures
        r@ == hexk_of(n as nat, k as nat),
    decreases k,
{
    if k == 0 {
        String::new()
    } else {
        let mut s = u64_hexk(n / 16, k - 1);
        push_char(&mut s, hex_digit((n % 16) as u8));
        s
    }
}

pub fn u64_hex16(n: u64) -> (r: String)
    ensures
        r@ == hex16_of(n),
{
    u64_hexk(n, 16)
}

/// The decimal digit character for a value below ten.
pub open spec fn dec_digit_char(n: u8) -> char {
    if n == 0 {
        '0'
    } else if n == 1 {
        '1'
    } else if n == 2 {
        '2'
    } else if n == 3 {
        '3'
    } else if n == 4 {
        '4'
    } else if n == 5 {
        '5'
    } else if n == 6 {
        '6'
    } else if n == 7 {
        '7'
    } else if n == 8 {
        '8'
    } else {
        '9'
    }
}

/// The ordinary decimal rendering of a number, without leading zeroes.
pub open spec fn dec_of(n: nat) -> Seq<char>
    decreases n,
{
    if n < 10 {
        seq![dec_digit_char(n as u8)]
    } else {
        dec_of(n / 10).push(dec_digit_char((n % 10) as u8))
    }
}

fn dec_digit(n: u8) -> (c: char)
    requires
        n < 10,
    ensures
        c == dec_digit_char(n),
{
    if n == 0 {
        '0'
    } else if n == 1 {
        '1'
    } else if n == 2 {
        '2'
    } else if n == 3 {
        '3'
    } else if n == 4 {
        '4'
    } else if n == 5 {
        '5'
    } else if n == 6 {
        '6'
    } else if n == 7 {
        '7'
    } else if n == 8 {
        '8'
    } else {
        '9'
    }
}

pub fn u64_to_dec(n: u64) -> (r: String)
    ensures
        r@ == dec_of(n as nat),
    decreases n,
{
    if n < 10 {
        let mut s = String::new();
        push_char(&mut s, dec_digit(n as u8));
        proof {
            assert(s@ =~= dec_of(n as nat));
        }
        s
    } else {
        let mut s = u64_to_dec(n / 10);
        push_char(&mut s, dec_digit((n % 10) as u8));
        s
    }
}

/// The 64-bit value read from a byte sequence in big-endian order; the
/// identifier scheme folds the first eight digest bytes this way.
pub open spec fn u64_from_be(bytes: Seq<u8>) -> nat
    decreases bytes.len(),
{
    if bytes.len() == 0 {
        0
    } else {
        u64_from_be(bytes.drop_last()) * 256 + (bytes.last() as nat)
    }
}

/// An upper bound for the big-endian reading: fewer than `256^len`.
proof fn lemma_u64_from_be_bound(bytes: Seq<u8>)
    ensures
        u64_from_be(bytes) < pow256(bytes.len()),
    decreases bytes.len(),
{
    reveal_with_fuel(pow256, 2);
    if bytes.len() == 0 {
    } else {
        lemma_u64_from_be_bound(bytes.drop_last());
        assert(u64_from_be(bytes.drop_last()) <= pow256((bytes.len() - 1) as nat) - 1);
        assert(pow256(bytes.len()) == pow256((bytes.len() - 1) as nat) * 256) by {
            lemma_pow256_unfold(bytes.len());
        }
    }
}

pub open spec fn pow256(k: nat) -> nat
    decreases k,
{
    if k == 0 {
        1
    } else {
        pow256((k - 1) as nat) * 256
    }
}

proof fn lemma_pow256_unfold(k: nat)
    requires
        k > 0,
    ensures
        pow256(k) == pow256((k - 1) as nat) * 256,
{
}

/// Folds the first eight bytes of a digest into a 64-bit value, big-endian.
pub fn fold_u64_prefix(bytes: &Vec<u8>) -> (r: u64)
    requires
        bytes@.len() >= 8,
    ensures
        r as nat == u64_from_be(bytes@.take(8)),
{
    let mut acc: u64 = 0;
    let mut i: usize = 0;
    while i < 8
        invariant
            0 <= i <= 8,
            bytes@.len() >= 8,
            acc as nat == u64_from_be(bytes@.take(i as int)),
        decreases 8 - i,
    {
        proof {
            lemma_u64_from_be_bound(bytes@.take(i as int));
            reveal_with_fuel(pow256, 9);
            assert(pow256(i as nat) <= pow256(7));
            assert(bytes@.take(i + 1).drop_last() =~= bytes@.take(i as int));
            assert(bytes@.take(i + 1).last() == bytes@[i as int]);
        }
        acc = acc * 256 + (bytes[i] as u64);
        i += 1;
    }
    acc
}

/// The byte sequence hashed to derive an identifier: the UTF-8 bytes of the
/// seed text followed by the big-endian bytes of the timestamp.
pub open spec fn id_hash_input(seed: Seq<char>, now: u64) -> Seq<u8> {
    vstd::utf8::encode_utf8(seed) + be_bytes_k(now as nat, 8)
}

/// The big-endian, `k`-byte rendering of a number.
pub open spec fn be_bytes_k(n: nat, k: nat) -> Seq<u8>
    decreases k,
{
    if k == 0 {
        Seq::empty()
    } else {
        be_bytes_k(n / 256, (k - 1) as nat).push((n % 256) as u8)
    }
}

fn append_be_bytes(out: &mut Vec<u8>, n: u64, k: u32)
    ensures
        final (out)@ == old(out)@ + be_bytes_k(n as nat, k as nat),
    decreases k,
{
    if k == 0 {
        proof {
            assert(old(out)@ + be_bytes_k(n as nat, 0) =~= old(out)@);
        }
    } else {
        append_be_bytes(out, n / 256, k - 1);
        out.push((n % 256) as u8);
        proof {
            assert(old(out)@ + be_bytes_k(n as nat, k as nat) =~= (old(out)@ + be_bytes_k(
                (n / 256) as nat,
                (k - 1) as nat,
            )).push((n % 256) as u8));
        }
    }
}

/// The identifier derived from a prefix, a seed text and a timestamp: the
/// prefix, an underscore, and sixteen hexadecimal digits folded out of the
/// digest of the seed and the time.
pub open spec fn generated_id(prefix: Seq<char>, seed: Seq<char>, now: u64) -> Seq<char> {
    prefix + seq!['_'] + hexk_of(u64_from_be(sha256_of(id_hash_input(seed, now)).take(8)), 16)
}

pub fn generate_id(prefix: &str, seed: &String, now: u64) -> (r: String)
    ensures
        r@ == generated_id(prefix@, seed@, now),
{
    let mut input: Vec<u8> = seed.as_str().as_bytes_vec();
    append_be_bytes(&mut input, now, 8);
    proof {
        assert(input@ =~= id_hash_input(seed@, now));
    }
    let digest = sha256(&input);
    let folded = fold_u64_prefix(&digest);
    let mut s = String::from_str(prefix);
    push_char(&mut s, '_');
    let hex = u64_hexk(folded, 16);
    let r = s.concat(hex.as_str());
    proof {
        assert(r@ =~= generated_id(prefix@, seed@, now));
    }
    r
}

/// The checksum recorded for document content: the lowercase hexadecimal
/// SHA-256 digest of the content's UTF-8 bytes.
pub open spec fn checksum_of(content: Seq<char>) -> Seq<char> {
    hex_of_bytes(sha256_of(vstd::utf8::encode_utf8(content)))
}

pub fn content_checksum(content: &String) -> (r: String)
    ensures
        r@ == checksum_of(content@),
{
    let bytes = content.as_str().as_bytes_vec();
    let digest = sha256(&bytes);
    bytes_to_hex(&digest)
}

/// The byte sequence hashed for an idempotency key: model name, proxy URL,
/// then every text followed by a `|` separator, all as UTF-8 bytes.
pub open spec fn key_hash_input(model: Seq<char>, url: Seq<char>, texts: Seq<Seq<char>>) -> Seq<
    u8,
>
    decreases texts.len(),
{
    if texts.len() == 0 {
        vstd::utf8::encode_utf8(model) + vstd::utf8::encode_utf8(url)
    } else {
        key_hash_input(model, url, texts.drop_last()) + vstd::utf8::encode_utf8(texts.last())
            + seq![124u8]
    }
}

/// The idempotency key sent with an embedding request: `icp-vdb-` and
/// sixteen hexadecimal digits folded out of the digest of the request
/// content.  Equal requests carry equal keys.
pub open spec fn idempotency_key_of(model: Seq<char>, url: Seq<char>, texts: Seq<Seq<char>>) -> Seq<
    char,
> {
    "icp-vdb-"@ + hexk_of(u64_from_be(sha256_of(key_hash_input(model, url, texts)).take(8)), 16)
}

pub fn generate_idempotency_key(model_name: &String, proxy_url: &String, texts: &Vec<String>) -> (r:
    String)
    ensures
        r@ == idempotency_key_of(model_name@, proxy_url@, texts.deep_view()),
{
    let mut input: Vec<u8> = model_name.as_str().as_bytes_vec();
    let mut url_bytes = proxy_url.as_str().as_bytes_vec();
    input.append(&mut url_bytes);
    proof {
        assert(input@ =~= key_hash_input(model_name@, proxy_url@, texts.deep_view().take(0)));
    }
    let n = texts.len();
    let mut i: usize = 0;
    while i < n
        invariant
            0 <= i <= n,
            n == texts@.len(),
            input@ == key_hash_input(model_name@, proxy_url@, texts.deep_view().take(i as int)),
        decreases n - i,
    {
        let mut text_bytes = texts[i].as_str().as_bytes_vec();
        input.append(&mut text_bytes);
        input.push(124u8);
        proof {
            let tv = texts.deep_view();
            assert(tv.take(i + 1).drop_last() =~= tv.take(i as int));
            assert(tv.take(i + 1).last() == tv[i as int]);
            assert(tv[i as int] == texts@[i as int]@);
            assert(input@ =~= key_hash_input(model_name@, proxy_url@, tv.take(i + 1)));
        }
        i += 1;
    }
    proof {
        assert(texts.deep_view().take(n as int) =~= texts.deep_view());
    }
    let digest = sha256(&input);
    let folded = fold_u64_prefix(&digest);
    let mut s = String::from_str("icp-vdb-");
    let hex = u64_hexk(folded, 16);
    let r = s.concat(hex.as_str());
    proof {
        assert(r@ =~= idempotency_key_of(model_name@, proxy_url@, texts.deep_view()));
    }
    r
}

} // verus!

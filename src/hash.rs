//! SHA-256 digests in lower-case hex, and the checks made with them.
use vstd::prelude::*;
use sha2::Digest;

verus! {

/// The SHA-256 digest of a byte string.
pub uninterp spec fn sha256_of(data: Seq<u8>) -> Seq<u8>;

/// Relies on `sha2::Sha256::digest`: the 32-byte SHA-256 digest of the input.
#[verifier::external_body]
fn sha256_digest(data: &[u8]) -> (r: Vec<u8>)
    ensures
        r@ == sha256_of(data@),
        r@.len() == 32,
{
    sha2::Sha256::digest(data).to_vec()
}

/// The lower-case hex digit of a value below 16.
pub open spec fn hex_digit(n: u8) -> char {
    if n < 10 {
        (48 + n) as char
    } else {
        (87 + n) as char
    }
}

/// Two lower-case hex digits per byte, the high half first.
pub open spec fn hex_lower(b: Seq<u8>) -> Seq<char>
    decreases b.len(),
{
    if b.len() == 0 {
        Seq::empty()
    } else {
        hex_lower(b.drop_last()) + seq![hex_digit(b.last() / 16), hex_digit(b.last() % 16)]
    }
}

/// Whether a character is a lower-case hex digit.
pub open spec fn is_lower_hex_digit(c: char) -> bool {
    ('0' <= c && c <= '9') || ('a' <= c && c <= 'f')
}

/// Hex text has two digits per byte, each a lower-case hex digit.
pub proof fn lemma_hex_lower_shape(b: Seq<u8>)
    ensures
        hex_lower(b).len() == 2 * b.len(),
        forall|i: int| 0 <= i < hex_lower(b).len() ==> is_lower_hex_digit(#[trigger] hex_lower(b)[i]),
    decreases b.len(),
{
    if b.len() > 0 {
        let t = b.drop_last();
        lemma_hex_lower_shape(t);
        let h = hex_lower(t);
        let x = b.last();
        let pair = seq![hex_digit(x / 16), hex_digit(x % 16)];
        assert forall|n: u8| n < 16 implies is_lower_hex_digit(#[trigger] hex_digit(n)) by {
            if n < 10 {
                assert((48 + n) as char as u32 == 48 + n);
            } else {
                assert((87 + n) as char as u32 == 87 + n);
            }
        }
        assert(is_lower_hex_digit(pair[0]) && is_lower_hex_digit(pair[1]));
        assert forall|i: int| 0 <= i < hex_lower(b).len() implies is_lower_hex_digit(#[trigger] hex_lower(b)[i]) by {
            if i < h.len() {
                assert(hex_lower(b)[i] == h[i]);
            } else {
                assert(hex_lower(b)[i] == pair[i - h.len()]);
            }
        }
    }
}

/// Relies on `base16ct::lower::encode_string`: two lower-case hex digits
/// per byte, the high half first.
#[verifier::external_body]
fn lower_hex(b: &[u8]) -> (r: String)
    requires
        b@.len() <= usize::MAX / 2,
    ensures
        r@ == hex_lower(b@),
{
    base16ct::lower::encode_string(b)
}

/// The text after the last underscore of a chunk identifier; the whole
/// identifier where it holds none.
pub open spec fn trailing_segment(s: Seq<char>) -> Seq<char>
    decreases s.len(),
{
    if s.len() == 0 {
        Seq::empty()
    } else if s.last() == '_' {
        Seq::empty()
    } else {
        trailing_segment(s.drop_last()).push(s.last())
    }
}

/// The chunk's own content hash: the last underscore-separated segment of
/// its identifier.
pub fn chunk_content_sha(sha: &str) -> (r: String)
    ensures
        r@ == trailing_segment(sha@),
{
    let n = sha.unicode_len();
    let mut start: usize = n;
    while start > 0 && sha.get_char(start - 1) != '_'
        invariant
            n == sha@.len(),
            start <= n,
            forall|j: int| start <= j < n ==> sha@[j] != '_',
        decreases start,
    {
        start = start - 1;
    }
    let mut r = String::new();
    let mut i: usize = start;
    while i < n
        invariant
            n == sha@.len(),
            start <= i <= n,
            forall|j: int| start <= j < n ==> sha@[j] != '_',
            start > 0 ==> sha@[start - 1] == '_',
            r@ == sha@.subrange(start as int, i as int),
        decreases n - i,
    {
        r.push(sha.get_char(i));
        i = i + 1;
        assert(r@ =~= sha@.subrange(start as int, i as int));
    }
    proof {
        lemma_trailing_segment(sha@, start as int);
    }
    r
}

/// The trailing segment is what follows the last underscore.
proof fn lemma_trailing_segment(s: Seq<char>, start: int)
    requires
        0 <= start <= s.len(),
        forall|j: int| start <= j < s.len() ==> s[j] != '_',
        start > 0 ==> s[start - 1] == '_',
    ensures
        trailing_segment(s) == s.subrange(start, s.len() as int),
    decreases s.len(),
{
    if s.len() == start {
        if s.len() > 0 {
            assert(s.last() == '_');
        }
        assert(s.subrange(start, s.len() as int) =~= Seq::<char>::empty());
    } else {
        let t = s.drop_last();
        lemma_trailing_segment(t, start);
        assert(s.subrange(start, s.len() as int) =~= t.subrange(start, t.len() as int).push(s.last()));
    }
}

/// Whether a digest, written as lower-case hex, equals the expected text.
pub fn digest_matches(digest: &[u8], expected: &str) -> (r: bool)
    requires
        digest@.len() <= usize::MAX / 2,
    ensures
        r == (hex_lower(digest@) == expected@),
{
    let hex = lower_hex(digest);
    let want = expected.to_owned();
    hex == want
}

/// Whether the SHA-256 of a chunk, in lower-case hex, equals `sha`; only
/// 64 lower-case hex digits can.
pub fn verify_chunk(chunk: &[u8], sha: &str) -> (r: bool)
    ensures
        r == (hex_lower(sha256_of(chunk@)) == sha@),
        r ==> sha@.len() == 64 && forall|i: int| 0 <= i < sha@.len() ==> is_lower_hex_digit(#[trigger] sha@[i]),
{
    let digest = sha256_digest(chunk);
    proof {
        lemma_hex_lower_shape(digest@);
    }
    digest_matches(&digest, sha)
}

/// Whether a fetched chunk may be written: always when verification is
/// skipped, else only when its SHA-256 equals the content hash that ends its
/// identifier.
pub fn accept_chunk(chunk: &[u8], chunk_sha: &str, skip_verify: bool) -> (r: bool)
    ensures
        r == (skip_verify || hex_lower(sha256_of(chunk@)) == trailing_segment(chunk_sha@)),
{
    if skip_verify {
        return true;
    }
    let content_sha = chunk_content_sha(chunk_sha);
    verify_chunk(chunk, content_sha.as_str())
}

} // verus!

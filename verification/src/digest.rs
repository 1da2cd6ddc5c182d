//! Content digests: SHA-256 (computed by the `sha2` crate) over canonical,
//! length-prefixed byte framings of the values being identified.
use vstd::prelude::*;

use sha2::Digest;

use crate::adapter::{append_digest_component, be_bytes};
use crate::text::{
    chars_of, collapse_whitespace, sorted_unique_strings, string_views, strictly_sorted,
};

verus! {

/// The SHA-256 digest of `bytes`.
pub uninterp spec fn sha256(bytes: Seq<u8>) -> Seq<u8>;

/// `sha2::Sha256::digest`. The result is named by `sha256` on the input
/// bytes and is 32 bytes long (the hasher's `OutputSize` is `U32`); nothing
/// else about the hash function is stated.
#[verifier::external_body]
fn sha256_digest(bytes: &[u8]) -> (r: Vec<u8>)
    ensures
        r@ == sha256(bytes@),
        r@.len() == 32,
{
    sha2::Sha256::digest(bytes).to_vec()
}

/// The UTF-8 bytes of a text (what `str::as_bytes` gives).
pub open spec fn utf8_bytes(text: Seq<char>) -> Seq<u8> {
    vstd::utf8::encode_utf8(text)
}

/// The lower-case hexadecimal digit of a value below 16.
pub open spec fn hex_digit(v: u8) -> char {
    if v < 10 {
        (48 + v) as char
    } else {
        (97 + (v - 10)) as char
    }
}

/// Lower-case hexadecimal text of `bytes`, two digits per byte.
pub open spec fn hex_of(bytes: Seq<u8>) -> Seq<char>
    decreases bytes.len(),
{
    if bytes.len() == 0 {
        Seq::<char>::empty()
    } else {
        hex_of(bytes.drop_last()) + seq![
            hex_digit(bytes.last() / 16),
            hex_digit(bytes.last() % 16),
        ]
    }
}

fn hex_digit_exec(v: u8) -> (c: char)
    requires
        v < 16,
    ensures
        c == hex_digit(v),
{
    if v < 10 {
        (48u8 + v) as char
    } else {
        (97u8 + (v - 10)) as char
    }
}

/// Lower-case hexadecimal text of `bytes`.
pub fn to_hex(bytes: &[u8]) -> (r: String)
    ensures
        r@ == hex_of(bytes@),
        r@.len() == 2 * bytes@.len(),
{
    let mut out: Vec<char> = Vec::new();
    let mut i: usize = 0;
    while i < bytes.len()
        invariant
            i <= bytes.len(),
            out@ == hex_of(bytes@.take(i as int)),
            out@.len() == 2 * i,
        decreases bytes.len() - i,
    {
        assert(bytes@.take(i + 1).drop_last() == bytes@.take(i as int));
        let b = bytes[i];
        out.push(hex_digit_exec(b / 16));
        out.push(hex_digit_exec(b % 16));
        i += 1;
        assert(out@ =~= hex_of(bytes@.take(i as int)));
    }
    assert(bytes@.take(bytes@.len() as int) == bytes@);
    crate::text::string_of(out.as_slice())
}

/// One length-prefixed component: the length as a big-endian `u64`, then the bytes.
pub open spec fn frame(v: Seq<u8>) -> Seq<u8> {
    be_bytes(v.len() as u64) + v
}

/// The framed UTF-8 bytes of each text, in order.
pub open spec fn frames(texts: Seq<Seq<char>>) -> Seq<u8>
    decreases texts.len(),
{
    if texts.len() == 0 {
        Seq::<u8>::empty()
    } else {
        frames(texts.drop_last()) + frame(utf8_bytes(texts.last()))
    }
}

/// The digest of a set of keys: the domain bytes, then each distinct key,
/// framed, in increasing order.
pub open spec fn is_key_set_digest(
    domain: Seq<u8>,
    keys: Seq<Seq<char>>,
    sorted: Seq<Seq<char>>,
    digest: Seq<u8>,
) -> bool {
    &&& strictly_sorted(sorted)
    &&& forall|x: Seq<char>| sorted.contains(x) <==> keys.contains(x)
    &&& digest == sha256(domain + frames(sorted))
}

/// SHA-256 of a domain followed by the sorted, de-duplicated keys, each
/// length-prefixed.
pub fn key_set_digest(domain: &[u8], keys: &[String]) -> (r: Vec<u8>)
    ensures
        exists|sorted: Seq<Seq<char>>| is_key_set_digest(domain@, string_views(keys@), sorted, r@),
        r@.len() == 32,
{
    let mut copy: Vec<String> = Vec::new();
    let mut i: usize = 0;
    while i < keys.len()
        invariant
            i <= keys.len(),
            string_views(copy@) == string_views(keys@).take(i as int),
        decreases keys.len() - i,
    {
        let k = keys[i].clone();
        let ghost old = copy@;
        let ghost kv = k@;
        assert(kv == keys@[i as int]@);
        copy.push(k);
        assert(copy@ == old.push(k));
        assert(string_views(copy@) =~= string_views(old).push(kv));
        assert(string_views(copy@) =~= string_views(keys@).take(i + 1));
        i += 1;
    }
    assert(string_views(keys@).take(keys@.len() as int) == string_views(keys@));
    let sorted = sorted_unique_strings(copy);
    let mut bytes: Vec<u8> = Vec::new();
    let mut k: usize = 0;
    while k < domain.len()
        invariant
            k <= domain.len(),
            bytes@ == domain@.take(k as int),
        decreases domain.len() - k,
    {
        bytes.push(domain[k]);
        k += 1;
        assert(bytes@ =~= domain@.take(k as int));
    }
    assert(domain@.take(domain@.len() as int) == domain@);
    let mut j: usize = 0;
    while j < sorted.len()
        invariant
            j <= sorted.len(),
            bytes@ == domain@ + frames(string_views(sorted@).take(j as int)),
        decreases sorted.len() - j,
    {
        let piece = sorted[j].as_str().as_bytes();
        assert(piece@ == utf8_bytes(string_views(sorted@)[j as int]));
        append_digest_component(&mut bytes, piece);
        assert(string_views(sorted@).take(j + 1).drop_last() == string_views(sorted@).take(
            j as int,
        ));
        assert(bytes@ =~= domain@ + frames(string_views(sorted@).take(j + 1)));
        j += 1;
    }
    assert(string_views(sorted@).take(sorted@.len() as int) == string_views(sorted@));
    let r = sha256_digest(bytes.as_slice());
    assert(is_key_set_digest(domain@, string_views(keys@), string_views(sorted@), r@));
    r
}

/// The UTF-8 bytes of a domain name followed by a NUL byte.
fn domain_bytes(text: &str) -> (r: Vec<u8>)
    ensures
        r@ == utf8_bytes(text@) + seq![0u8],
{
    let bytes = text.as_bytes();
    let mut domain: Vec<u8> = Vec::new();
    let mut k: usize = 0;
    while k < bytes.len()
        invariant
            k <= bytes.len(),
            domain@ == bytes@.take(k as int),
        decreases bytes.len() - k,
    {
        domain.push(bytes[k]);
        k += 1;
        assert(domain@ =~= bytes@.take(k as int));
    }
    assert(bytes@.take(bytes@.len() as int) == bytes@);
    domain.push(0u8);
    assert(domain@ =~= bytes@ + seq![0u8]);
    domain
}

/// The digest of the distinct import-site keys of a unit.
pub fn import_site_set_digest(keys: &[String]) -> (r: Vec<u8>)
    ensures
        exists|sorted: Seq<Seq<char>>|
            is_key_set_digest(
                utf8_bytes("codebase-workspace.import-site-set.v1"@) + seq![0u8],
                string_views(keys@),
                sorted,
                r@,
            ),
{
    let domain = domain_bytes("codebase-workspace.import-site-set.v1");
    let r = key_set_digest(domain.as_slice(), keys);
    proof {
        let sorted = choose|sorted: Seq<Seq<char>>|
            is_key_set_digest(domain@, string_views(keys@), sorted, r@);
        assert(is_key_set_digest(
            utf8_bytes("codebase-workspace.import-site-set.v1"@) + seq![0u8],
            string_views(keys@),
            sorted,
            r@,
        ));
    }
    r
}

/// The digest of the distinct type-relation keys of a language.
pub fn type_relation_set_digest(keys: &[String]) -> (r: Vec<u8>)
    ensures
        exists|sorted: Seq<Seq<char>>|
            is_key_set_digest(
                utf8_bytes("codebase-workspace.type-relation-set.v1"@) + seq![0u8],
                string_views(keys@),
                sorted,
                r@,
            ),
{
    let domain = domain_bytes("codebase-workspace.type-relation-set.v1");
    let r = key_set_digest(domain.as_slice(), keys);
    proof {
        let sorted = choose|sorted: Seq<Seq<char>>|
            is_key_set_digest(domain@, string_views(keys@), sorted, r@);
        assert(is_key_set_digest(
            utf8_bytes("codebase-workspace.type-relation-set.v1"@) + seq![0u8],
            string_views(keys@),
            sorted,
            r@,
        ));
    }
    r
}

/// The digest that identifies a literal SQL query: SHA-256 of its statement
/// text with whitespace runs collapsed.
pub fn sql_query_digest(sql: &str) -> (r: Vec<u8>)
    ensures
        r@ == sha256(utf8_bytes(collapse_whitespace(sql@))),
        r@.len() == 32,
{
    let normalized = crate::text::collapse_whitespace_str(sql);
    let bytes = normalized.as_str().as_bytes();
    sha256_digest(bytes)
}

/// The digest over ordered `(unit, digest text)` summaries: each component framed.
pub open spec fn pair_frames(pairs: Seq<(Seq<char>, Seq<char>)>) -> Seq<u8>
    decreases pairs.len(),
{
    if pairs.len() == 0 {
        Seq::<u8>::empty()
    } else {
        pair_frames(pairs.drop_last()) + frame(utf8_bytes(pairs.last().0)) + frame(
            utf8_bytes(pairs.last().1),
        )
    }
}

pub open spec fn pair_views(pairs: Seq<(String, String)>) -> Seq<(Seq<char>, Seq<char>)> {
    pairs.map_values(|p: (String, String)| (p.0@, p.1@))
}

/// SHA-256 of the framed `(unit id, digest text)` pairs, in the given order
/// (the stream-set and semantic-payload-set digests of a snapshot).
pub fn summary_set_digest(summaries: &[(String, String)]) -> (r: Vec<u8>)
    ensures
        r@ == sha256(pair_frames(pair_views(summaries@))),
{
    let mut bytes: Vec<u8> = Vec::new();
    let mut j: usize = 0;
    while j < summaries.len()
        invariant
            j <= summaries.len(),
            bytes@ == pair_frames(pair_views(summaries@).take(j as int)),
        decreases summaries.len() - j,
    {
        let a = summaries[j].0.as_str().as_bytes();
        let b = summaries[j].1.as_str().as_bytes();
        assert(a@ == utf8_bytes(pair_views(summaries@)[j as int].0));
        assert(b@ == utf8_bytes(pair_views(summaries@)[j as int].1));
        append_digest_component(&mut bytes, a);
        append_digest_component(&mut bytes, b);
        assert(pair_views(summaries@).take(j + 1).drop_last() == pair_views(summaries@).take(
            j as int,
        ));
        assert(bytes@ =~= pair_frames(pair_views(summaries@).take(j + 1)));
        j += 1;
    }
    assert(pair_views(summaries@).take(summaries@.len() as int) == pair_views(summaries@));
    sha256_digest(bytes.as_slice())
}

/// The workspace identity of a project root: `ws-` and the first 16 hex
/// digits of the SHA-256 of the normalized root path text.
pub fn workspace_id(normalized_root: &str) -> (r: String)
    ensures
        r@ == "ws-"@ + hex_of(sha256(utf8_bytes(normalized_root@))).take(16),
{
    let digest = sha256_digest(normalized_root.as_bytes());
    let hex = to_hex(digest.as_slice());
    let h = chars_of(hex.as_str());
    let prefix = crate::text::string_of_range(h.as_slice(), 0, 16);
    assert(h@.subrange(0, 16) == h@.take(16));
    crate::text::concat("ws-", prefix.as_str())
}

} // verus!

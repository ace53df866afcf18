use crate::registry_url::{RegistryUrl, UrlView};
use crate::source_kind::Kind;
use std::hash::{Hash, Hasher};
use vstd::prelude::*;

verus! {

/// The lowercase hexadecimal digit for `n < 16`.
pub open spec fn hex_digit(n: u8) -> char {
    seq!['0', '1', '2', '3', '4', '5', '6', '7', '8', '9', 'a', 'b', 'c', 'd', 'e', 'f'][n as int]
}

/// Two lowercase hexadecimal digits per byte, high nibble first.
pub open spec fn hex_lower(b: Seq<u8>) -> Seq<char>
    decreases b.len(),
{
    if b.len() == 0 {
        seq![]
    } else {
        hex_lower(b.drop_last()) + seq![hex_digit(b.last() >> 4u8), hex_digit(b.last() & 15u8)]
    }
}

/// Byte `i` of the little-endian encoding of `h`.
pub open spec fn le_byte(h: u64, i: int) -> u8 {
    ((h >> ((8 * i) as u64)) & 255u64) as u8
}

/// The eight bytes of `h`, least significant first.
pub open spec fn le_bytes(h: u64) -> Seq<u8> {
    Seq::new(8, |i: int| le_byte(h, i))
}

/// The 64-bit digest of a source identity, as the package manager computes it:
/// SipHash-2-4 with both keys zero, fed the derived `Hash` of the source kind
/// and then the URL string. The derived `Hash` writes the kind's discriminant
/// in the target's native size and byte order, so the digest matches the
/// package manager's own on 64-bit little-endian targets.
pub uninterp spec fn source_hash(kind: Kind, url: Seq<char>) -> u64;

/// The cache directory name for a registry with the given host and digest:
/// `{host}-{16 hex digits}`.
pub open spec fn cache_dir_name(host: Seq<char>, hash: u64) -> Seq<char> {
    host + seq!['-'] + hex_lower(le_bytes(hash))
}

/// The host of a URL, or the empty string where it has none.
pub open spec fn host_or_empty(url: UrlView) -> Seq<char> {
    match url.host {
        Some(h) => h,
        None => seq![],
    }
}

/// The cache directory name that the package manager uses for a registry index.
pub open spec fn short_name_of(url: UrlView) -> Seq<char> {
    cache_dir_name(host_or_empty(url), source_hash(Kind::Registry, url.serialization))
}

/// The cache directory name depends on the URL alone: two URLs that read
/// the same give the same name, in any process.
pub proof fn lemma_short_name_reproducible(a: UrlView, b: UrlView)
    requires
        a.serialization == b.serialization,
        a.host == b.host,
    ensures
        short_name_of(a) == short_name_of(b),
{
}

/// `base` followed by `part`, with one `/` between them.
pub open spec fn join_path(base: Seq<char>, part: Seq<char>) -> Seq<char> {
    if base.len() == 0 || base.last() == '/' {
        base + part
    } else {
        base + seq!['/'] + part
    }
}

/// Where the index cache of `url` lies under the tool's home directory:
/// `<home>/registry/index/<short name>`.
pub open spec fn cache_path_of(home: Seq<char>, url: UrlView) -> Seq<char> {
    join_path(join_path(join_path(home, "registry"@), "index"@), short_name_of(url))
}

/// Relies on `hex::encode`: two lowercase hexadecimal digits per byte, in order.
#[verifier::external_body]
fn hex_encode(bytes: &Vec<u8>) -> (r: String)
    ensures
        r@ == hex_lower(bytes@),
{
    hex::encode(bytes)
}

/// Relies on std's `SipHasher` with keys (0, 0): it is fed `kind` through its
/// `Hash` impl, then `url` through `str`'s, and its `finish` is returned.
#[verifier::external_body]
fn hash_source(kind: &Kind, url: &str) -> (r: u64)
    ensures
        r == source_hash(*kind, url@),
{
    #[allow(deprecated)]
    let mut hasher = std::hash::SipHasher::new_with_keys(0, 0);
    kind.hash(&mut hasher);
    url.hash(&mut hasher);
    hasher.finish()
}

/// The eight little-endian bytes of `h`.
pub fn to_le_bytes(h: u64) -> (r: Vec<u8>)
    ensures
        r@ == le_bytes(h),
{
    let mut out: Vec<u8> = Vec::new();
    let mut i: u64 = 0;
    while i < 8
        invariant
            i <= 8,
            out@.len() == i,
            forall|j: int| 0 <= j < i ==> out@[j] == le_byte(h, j),
        decreases 8 - i,
    {
        out.push(((h >> (8 * i)) & 255u64) as u8);
        i = i + 1;
    }
    assert(out@ =~= le_bytes(h));
    out
}

/// The cache directory name for a registry host and its source digest.
pub fn cache_dir_name_of(host: &str, hash: u64) -> (r: String)
    ensures
        r@ == cache_dir_name(host@, hash),
{
    let digits = hex_encode(&to_le_bytes(hash));
    let mut name = String::from_str(host);
    name.append("-");
    name.append(digits.as_str());
    proof {
        reveal_strlit("-");
    }
    name
}

/// The name of the directory in which the package manager caches the index
/// of the registry at `registry`.
pub fn short_name(registry: &RegistryUrl) -> (r: String)
    ensures
        r@ == short_name_of(registry@),
{
    let hash = hash_source(&Kind::Registry, registry.serialization.as_str());
    match &registry.host {
        Some(h) => cache_dir_name_of(h.as_str(), hash),
        None => {
            proof {
                reveal_strlit("");
            }
            cache_dir_name_of("", hash)
        },
    }
}

/// `base` and `part` joined by one `/`.
pub fn join_path_of(base: &str, part: &str) -> (r: String)
    ensures
        r@ == join_path(base@, part@),
{
    let mut out = String::from_str(base);
    let n = base.unicode_len();
    if n == 0 || base.get_char(n - 1) == '/' {
        out.append(part);
    } else {
        out.append("/");
        out.append(part);
        proof {
            reveal_strlit("/");
        }
    }
    out
}

/// The index cache directory of `registry` under the tool's home directory
/// `home`.
pub fn registry_path_from_url(home: &str, registry: &RegistryUrl) -> (r: String)
    ensures
        r@ == cache_path_of(home@, registry@),
{
    let base = join_path_of(home, "registry");
    let base = join_path_of(base.as_str(), "index");
    let name = short_name(registry);
    join_path_of(base.as_str(), name.as_str())
}

} // verus!

//! The node-local cache of compiled kernel binaries, keyed by cache key,
//! and the key layout of the cluster-wide cache.
use vstd::prelude::*;
use vstd::string::StringExecFns;

use crate::hexdigits::{append_hex_u64, hex_u64_text};
use crate::kernel_hash::{blake3_keyed, law_key_ignores_job_and_node, same_key_fields, serialized, KernelMetadata};
use crate::hexdigits::hex_text;
use crate::kernel_text::{parse_usize, parse_usize_bytes};
use crate::text_map::TextMap;
use vstd::utf8::encode_utf8;

verus! {

/// A compiled kernel as the interceptor caches it: the binary, its target
/// format, the tiles and shared memory it is launched with, its radius and
/// the metadata it was compiled from.
#[derive(Debug, Clone)]
pub struct CachedKernel {
    pub binary: Vec<u8>,
    pub target: String,
    pub tile_x: Option<u32>,
    pub tile_y: Option<u32>,
    pub shared_mem_bytes: u32,
    pub radius: u32,
    pub metadata: Option<KernelMetadata>,
}

/// Compiled kernel binaries by cache key.
pub struct LocalCache {
    entries: TextMap<Vec<u8>>,
}

impl LocalCache {
    /// Binaries by cache key.
    pub closed spec fn contents(&self) -> Map<Seq<char>, Seq<u8>> {
        Map::new(|k: Seq<char>| self.entries@.contains_key(k), |k: Seq<char>| self.entries@[k]@)
    }

    /// An empty cache.
    pub fn new() -> (r: LocalCache)
        ensures
            r.contents() == Map::<Seq<char>, Seq<u8>>::empty(),
    {
        let r = LocalCache { entries: TextMap::new() };
        proof {
            assert(r.contents() =~= Map::<Seq<char>, Seq<u8>>::empty());
        }
        r
    }
}

/// The binary cached under `hash`.
pub fn get(cache: &LocalCache, hash: &str) -> (r: Option<Vec<u8>>)
    ensures
        r is Some <==> cache.contents().contains_key(hash@),
        r matches Some(b) ==> b@ == cache.contents()[hash@],
{
    match cache.entries.get(hash) {
        Some(v) => {
            let b = v.clone();
            proof {
                assert(b@ =~= v@);
            }
            Some(b)
        },
        None => None,
    }
}

/// Caches `binary` under `hash`, replacing what was there.
pub fn put(cache: &mut LocalCache, hash: &str, binary: &[u8])
    ensures
        final(cache).contents() == old(cache).contents().insert(hash@, binary@),
{
    let mut value: Vec<u8> = Vec::new();
    value.extend_from_slice(binary);
    proof {
        assert(value@ =~= binary@);
    }
    cache.entries.insert(hash, value);
    proof {
        assert(cache.contents() =~= old(cache).contents().insert(hash@, binary@));
    }
}

/// Reading a key right after writing it gives back what was written, and
/// writing one key leaves every other key as it was.
pub proof fn law_get_after_put(contents: Map<Seq<char>, Seq<u8>>, key: Seq<char>, binary: Seq<u8>, other: Seq<char>)
    requires
        other != key,
    ensures
        contents.insert(key, binary).contains_key(key),
        contents.insert(key, binary)[key] == binary,
        contents.insert(key, binary).contains_key(other) == contents.contains_key(other),
        contents.insert(key, binary)[other] == contents[other],
{
}

/// Compiled kernels with their launch parameters, by cache key.
pub struct KernelCache {
    kernels: TextMap<CachedKernel>,
}

impl View for KernelCache {
    type V = Map<Seq<char>, CachedKernel>;

    closed spec fn view(&self) -> Map<Seq<char>, CachedKernel> {
        self.kernels@
    }
}

impl KernelCache {
    /// A cache with no kernel.
    pub fn new() -> (r: KernelCache)
        ensures
            r@ == Map::<Seq<char>, CachedKernel>::empty(),
    {
        KernelCache { kernels: TextMap::new() }
    }
}

/// What a request for the kernel under a key needs: the cached kernel to
/// run, or a compilation.
pub enum RequestAction<'a> {
    RunCached(&'a CachedKernel),
    Compile,
}

/// The kernel a request for `key` finds in a cache holding `m`, if any.
pub open spec fn cached_for(m: Map<Seq<char>, CachedKernel>, key: Seq<char>) -> Option<CachedKernel> {
    if m.contains_key(key) {
        Some(m[key])
    } else {
        None
    }
}

/// Decides a request: run the kernel cached under `key`, or compile one
/// when none is.
pub fn plan_request<'a>(cache: &'a KernelCache, key: &str) -> (r: RequestAction<'a>)
    ensures
        match cached_for(cache@, key@) {
            Some(k) => r matches RequestAction::RunCached(e) && *e == k,
            None => r is Compile,
        },
{
    match cache.kernels.get(key) {
        Some(e) => RequestAction::RunCached(e),
        None => RequestAction::Compile,
    }
}

/// Stores a freshly compiled kernel under its key, replacing what was there.
pub fn record_compiled(cache: &mut KernelCache, key: &str, e: CachedKernel)
    ensures
        final(cache)@ == old(cache)@.insert(key@, e),
{
    cache.kernels.insert(key, e);
}

/// The cache key of metadata under a secret key: lowercase hex of the keyed
/// BLAKE3 hash of its bytes, as `KernelMetadata::cache_key` computes it.
pub open spec fn kernel_key(secret: Seq<u8>, m: KernelMetadata) -> Seq<char> {
    hex_text(blake3_keyed(secret, serialized(m)))
}

/// Compiled code is reused: once the kernel compiled for a request is
/// recorded under its key, a later request whose metadata differ at most in
/// job and node finds that kernel and runs it, and requests under other keys
/// find what they found before.
pub proof fn law_second_request_reuses(
    m: Map<Seq<char>, CachedKernel>,
    secret: Seq<u8>,
    first: KernelMetadata,
    second: KernelMetadata,
    e: CachedKernel,
    other: Seq<char>,
)
    requires
        same_key_fields(first, second),
        other != kernel_key(secret, first),
    ensures
        cached_for(m.insert(kernel_key(secret, first), e), kernel_key(secret, second)) == Some(e),
        cached_for(m.insert(kernel_key(secret, first), e), other) == cached_for(m, other),
{
    law_key_ignores_job_and_node(first, second);
}

/// Key of a kernel binary in the cluster-wide cache.
pub open spec fn cluster_key_text(hash: u64) -> Seq<char> {
    "basalto:kernel:"@ + hex_u64_text(hash)
}

/// The cluster cache key of a 64-bit kernel hash: `basalto:kernel:`
/// followed by sixteen lowercase hex digits.
pub fn cluster_key(hash: u64) -> (r: String)
    ensures
        r@ == cluster_key_text(hash),
{
    let mut r = String::from_str("basalto:kernel:");
    append_hex_u64(&mut r, hash);
    r
}

/// The lifetime of a cluster cache entry in seconds: the configured value
/// when it parses as an unsigned integer, else seven days.
pub open spec fn ttl_seconds(configured: Option<Seq<char>>) -> usize {
    match configured {
        Some(v) => match parse_usize(encode_utf8(v)) {
            Some(t) => t,
            None => 604800,
        },
        None => 604800,
    }
}

/// The lifetime of a cluster cache entry, from the configured text if any.
pub fn ttl_from_config(configured: Option<&str>) -> (r: usize)
    ensures
        r == ttl_seconds(match configured {
            Some(v) => Some(v@),
            None => None,
        }),
{
    match configured {
        Some(v) => match parse_usize_bytes(v.as_bytes()) {
            Some(t) => t,
            None => 604800,
        },
        None => 604800,
    }
}

} // verus!

//! Kernel identity: the fixed byte layout of kernel metadata, the keyed
//! BLAKE3 cache key and the SHA-256 audit digest built on it.
use vstd::bytes::{
    lemma_auto_spec_u64_to_from_le_bytes, spec_u64_from_le_bytes, spec_u64_to_le_bytes, u64_from_le_bytes,
    u64_to_le_bytes,
};
use sha2::Digest;
use vstd::prelude::*;
use vstd::string::StringSliceAdditionalSpecFns;
use vstd::utf8::encode_utf8;

use crate::hexdigits::{encode, hex_text, lemma_hex_text_len};

verus! {

/// The keyed BLAKE3 hash (32 bytes) of `data` under `key`.
pub uninterp spec fn blake3_keyed(key: Seq<u8>, data: Seq<u8>) -> Seq<u8>;

/// The SHA-256 digest (32 bytes) of `data`.
pub uninterp spec fn sha256(data: Seq<u8>) -> Seq<u8>;

/// `blake3::keyed_hash`: the 32-byte keyed BLAKE3 hash of `data`. The
/// contract only names the result as a function of key and input; it says
/// nothing about the hash function itself.
#[verifier::external_body]
fn blake3_keyed_hash(key: &[u8; 32], data: &[u8]) -> (r: [u8; 32])
    ensures
        r@ == blake3_keyed(key@, data@),
{
    *blake3::keyed_hash(key, data).as_bytes()
}

/// `sha2::Sha256::digest`: the 32-byte SHA-256 digest of `data`. The
/// contract only names the result as a function of the input.
#[verifier::external_body]
fn sha256_digest(data: &[u8]) -> (r: [u8; 32])
    ensures
        r@ == sha256(data@),
{
    sha2::Sha256::digest(data).into()
}

/// Static capabilities of a GPU, each serialised as 8 little-endian bytes.
#[derive(Clone, Copy, Debug)]
pub struct DeviceCapabilities {
    pub compute_capability_major: u64,
    pub compute_capability_minor: u64,
    pub max_threads_per_block: u64,
    pub max_shared_memory_per_block: u64,
    pub max_registers_per_block: u64,
    pub warp_size: u64,
    pub multi_processor_count: u64,
}

/// Everything that identifies a compiled kernel.
#[derive(Debug, Clone)]
pub struct KernelMetadata {
    pub operation: String,
    pub dtype: String,
    pub shape: Vec<usize>,
    pub strides: Vec<isize>,
    pub radius: usize,
    pub matmul_m: Option<usize>,
    pub matmul_n: Option<usize>,
    pub matmul_k: Option<usize>,
    pub matmul_trans_a: Option<bool>,
    pub matmul_trans_b: Option<bool>,
    pub matmul_batch: Option<usize>,
    pub vendor: String,
    pub arch: String,
    pub driver_version: String,
    pub job_id: Option<String>,
    pub node_id: Option<String>,
    pub capabilities: Option<DeviceCapabilities>,
}

/// `bytes` cut or zero-padded to exactly `n` bytes.
pub open spec fn padded(bytes: Seq<u8>, n: nat) -> Seq<u8> {
    Seq::new(n, |i: int| if i < bytes.len() { bytes[i] } else { 0u8 })
}

/// Eight little-endian bytes.
pub open spec fn le64(x: u64) -> Seq<u8> {
    spec_u64_to_le_bytes(x)
}

/// One byte, 1 for true and 0 for false.
pub open spec fn flag(b: bool) -> Seq<u8> {
    seq![if b { 1u8 } else { 0u8 }]
}

/// Each extent as a little-endian `u64`.
pub open spec fn extents_bytes(s: Seq<usize>) -> Seq<u8>
    decreases s.len(),
{
    if s.len() == 0 {
        Seq::empty()
    } else {
        extents_bytes(s.drop_last()) + le64(s.last() as u64)
    }
}

/// Each stride as a little-endian `i64`.
pub open spec fn strides_bytes(s: Seq<isize>) -> Seq<u8>
    decreases s.len(),
{
    if s.len() == 0 {
        Seq::empty()
    } else {
        strides_bytes(s.drop_last()) + le64((s.last() as i64) as u64)
    }
}

/// The value of an option, or `d`.
pub open spec fn or_default<T>(o: Option<T>, d: T) -> T {
    match o {
        Some(x) => x,
        None => d,
    }
}

/// The GEMM block: a presence flag, then m, n, k, the two transpose flags
/// and the batch count when `matmul_m` is set.
pub open spec fn matmul_bytes(m: KernelMetadata) -> Seq<u8> {
    if m.matmul_m is Some {
        flag(true) + le64(or_default(m.matmul_m, 0usize) as u64) + le64(or_default(m.matmul_n, 0usize) as u64)
            + le64(or_default(m.matmul_k, 0usize) as u64) + flag(or_default(m.matmul_trans_a, false))
            + flag(or_default(m.matmul_trans_b, false)) + le64(or_default(m.matmul_batch, 1usize) as u64)
    } else {
        flag(false)
    }
}

/// The seven capability fields, or 56 zero bytes.
pub open spec fn capabilities_bytes(c: Option<DeviceCapabilities>) -> Seq<u8> {
    match c {
        Some(c) => le64(c.compute_capability_major) + le64(c.compute_capability_minor) + le64(
            c.max_threads_per_block,
        ) + le64(c.max_shared_memory_per_block) + le64(c.max_registers_per_block) + le64(c.warp_size)
            + le64(c.multi_processor_count),
        None => Seq::new(56, |i: int| 0u8),
    }
}

/// The fixed byte layout of kernel metadata that keys the caches.
pub open spec fn serialized(m: KernelMetadata) -> Seq<u8> {
    padded(encode_utf8(m.operation@), 32)
        + padded(encode_utf8(m.dtype@), 16)
        + le64(m.shape@.len() as u64) + extents_bytes(m.shape@)
        + le64(m.strides@.len() as u64) + strides_bytes(m.strides@)
        + le64(m.radius as u64)
        + matmul_bytes(m)
        + padded(encode_utf8(m.vendor@), 16)
        + padded(encode_utf8(m.arch@), 16)
        + padded(encode_utf8(m.driver_version@), 32)
        + capabilities_bytes(m.capabilities)
}


/// Appends `bytes` cut or zero-padded to `n` bytes.
fn append_padded(buf: &mut Vec<u8>, bytes: &[u8], n: usize)
    ensures
        final(buf)@ == old(buf)@ + padded(bytes@, n as nat),
{
    let mut i: usize = 0;
    while i < n
        invariant
            i <= n,
            buf@ == old(buf)@ + padded(bytes@, n as nat).take(i as int),
        decreases n - i,
    {
        let b: u8 = if i < bytes.len() {
            bytes[i]
        } else {
            0u8
        };
        buf.push(b);
        proof {
            assert(padded(bytes@, n as nat).take(i as int + 1) =~= padded(bytes@, n as nat).take(i as int).push(b));
        }
        i += 1;
    }
    proof {
        assert(padded(bytes@, n as nat).take(n as int) =~= padded(bytes@, n as nat));
    }
}

/// Appends eight little-endian bytes.
fn append_le64(buf: &mut Vec<u8>, x: u64)
    ensures
        final(buf)@ == old(buf)@ + le64(x),
{
    let mut b = u64_to_le_bytes(x);
    buf.append(&mut b);
}

/// Appends a one-byte flag.
fn append_flag(buf: &mut Vec<u8>, b: bool)
    ensures
        final(buf)@ == old(buf)@ + flag(b),
{
    buf.push(if b { 1u8 } else { 0u8 });
    proof {
        assert(final(buf)@ =~= old(buf)@ + flag(b));
    }
}

impl KernelMetadata {
    /// The fixed byte layout of the metadata (job and node ids excluded).
    pub fn to_serialized(&self) -> (r: Vec<u8>)
        ensures
            r@ == serialized(*self),
    {
        let mut buf: Vec<u8> = Vec::new();
        append_padded(&mut buf, self.operation.as_str().as_bytes(), 32);
        append_padded(&mut buf, self.dtype.as_str().as_bytes(), 16);

        append_le64(&mut buf, self.shape.len() as u64);
        let ghost before_shape = buf@;
        let mut i: usize = 0;
        while i < self.shape.len()
            invariant
                i <= self.shape.len(),
                buf@ == before_shape + extents_bytes(self.shape@.take(i as int)),
            decreases self.shape.len() - i,
        {
            append_le64(&mut buf, self.shape[i] as u64);
            proof {
                assert(self.shape@.take(i as int + 1).drop_last() =~= self.shape@.take(i as int));
            }
            i += 1;
        }
        proof {
            assert(self.shape@.take(self.shape.len() as int) =~= self.shape@);
        }

        append_le64(&mut buf, self.strides.len() as u64);
        let ghost before_strides = buf@;
        let mut j: usize = 0;
        while j < self.strides.len()
            invariant
                j <= self.strides.len(),
                buf@ == before_strides + strides_bytes(self.strides@.take(j as int)),
            decreases self.strides.len() - j,
        {
            append_le64(&mut buf, (self.strides[j] as i64) as u64);
            proof {
                assert(self.strides@.take(j as int + 1).drop_last() =~= self.strides@.take(j as int));
            }
            j += 1;
        }
        proof {
            assert(self.strides@.take(self.strides.len() as int) =~= self.strides@);
        }

        append_le64(&mut buf, self.radius as u64);

        let ghost before_matmul = buf@;
        let has_matmul = self.matmul_m.is_some();
        append_flag(&mut buf, has_matmul);
        if has_matmul {
            append_le64(&mut buf, self.matmul_m.unwrap_or(0) as u64);
            append_le64(&mut buf, self.matmul_n.unwrap_or(0) as u64);
            append_le64(&mut buf, self.matmul_k.unwrap_or(0) as u64);
            append_flag(&mut buf, self.matmul_trans_a.unwrap_or(false));
            append_flag(&mut buf, self.matmul_trans_b.unwrap_or(false));
            append_le64(&mut buf, self.matmul_batch.unwrap_or(1) as u64);
        }
        proof {
            assert(buf@ =~= before_matmul + matmul_bytes(*self));
        }

        append_padded(&mut buf, self.vendor.as_str().as_bytes(), 16);
        append_padded(&mut buf, self.arch.as_str().as_bytes(), 16);
        append_padded(&mut buf, self.driver_version.as_str().as_bytes(), 32);

        let ghost before_caps = buf@;
        match &self.capabilities {
            Some(caps) => {
                append_le64(&mut buf, caps.compute_capability_major);
                append_le64(&mut buf, caps.compute_capability_minor);
                append_le64(&mut buf, caps.max_threads_per_block);
                append_le64(&mut buf, caps.max_shared_memory_per_block);
                append_le64(&mut buf, caps.max_registers_per_block);
                append_le64(&mut buf, caps.warp_size);
                append_le64(&mut buf, caps.multi_processor_count);
            },
            None => {
                append_padded(&mut buf, &[], 56);
            },
        }
        proof {
            assert(buf@ =~= before_caps + capabilities_bytes(self.capabilities));
            assert(buf@ =~= serialized(*self));
        }
        buf
    }

    /// Cache key of the kernel: lowercase hex of the BLAKE3 hash of its
    /// serialised metadata under `key`.
    pub fn cache_key(&self, key: &[u8; 32]) -> (r: String)
        ensures
            r@ == hex_text(blake3_keyed(key@, serialized(*self))),
            r@.len() == 64,
    {
        let data = self.to_serialized();
        let digest = blake3_keyed_hash(key, data.as_slice());
        proof {
            lemma_hex_text_len(digest@);
        }
        encode(digest.as_slice())
    }

    /// The bytes that the audit digest covers: the serialised metadata
    /// followed by the job id and the node id when present.
    pub fn audit_bytes(&self) -> (r: Vec<u8>)
        ensures
            r@ == audit_data(*self),
    {
        let mut data = self.to_serialized();
        match &self.job_id {
            Some(job) => {
                data.extend_from_slice(job.as_str().as_bytes());
            },
            None => {},
        }
        match &self.node_id {
            Some(node) => {
                data.extend_from_slice(node.as_str().as_bytes());
            },
            None => {},
        }
        proof {
            assert(data@ =~= audit_data(*self));
        }
        data
    }

    /// Audit digest: lowercase hex of the SHA-256 of [`Self::audit_bytes`].
    pub fn audit_digest(&self) -> (r: String)
        ensures
            r@ == hex_text(sha256(audit_data(*self))),
            r@.len() == 64,
    {
        let data = self.audit_bytes();
        let digest = sha256_digest(data.as_slice());
        proof {
            lemma_hex_text_len(digest@);
        }
        encode(digest.as_slice())
    }
}

/// The UTF-8 bytes of an optional string, or nothing.
pub open spec fn opt_text_bytes(o: Option<String>) -> Seq<u8> {
    match o {
        Some(s) => encode_utf8(s@),
        None => Seq::empty(),
    }
}

/// Serialised metadata followed by the job id and node id bytes.
pub open spec fn audit_data(m: KernelMetadata) -> Seq<u8> {
    serialized(m) + opt_text_bytes(m.job_id) + opt_text_bytes(m.node_id)
}

/// The fixed key of the fast content hash.
pub open spec fn fast_hash_key() -> Seq<u8> {
    Seq::new(32, |i: int| 0x42u8)
}

/// The first eight bytes of a digest read as a little-endian `u64`.
pub open spec fn digest_prefix_u64(d: Seq<u8>) -> u64 {
    spec_u64_from_le_bytes(d.take(8))
}

/// All parts laid end to end.
pub open spec fn concat_parts(parts: Seq<Seq<u8>>) -> Seq<u8>
    decreases parts.len(),
{
    if parts.len() == 0 {
        Seq::empty()
    } else {
        concat_parts(parts.drop_last()) + parts.last()
    }
}

/// The view of every part.
pub open spec fn parts_view(parts: Seq<&[u8]>) -> Seq<Seq<u8>> {
    Seq::new(parts.len(), |i: int| parts[i]@)
}

/// The fast content hash of `data`.
pub open spec fn fast_hash_of(data: Seq<u8>) -> u64 {
    digest_prefix_u64(blake3_keyed(fast_hash_key(), data))
}

/// The first eight bytes of `d`, as a `u64`.
fn prefix_u64(d: &[u8; 32]) -> (r: u64)
    ensures
        r == digest_prefix_u64(d@),
{
    let mut head: Vec<u8> = Vec::new();
    let mut i: usize = 0;
    while i < 8
        invariant
            i <= 8,
            d@.len() == 32,
            head@ == d@.take(i as int),
        decreases 8 - i,
    {
        head.push(d[i]);
        proof {
            assert(d@.take(i as int + 1) =~= d@.take(i as int).push(d@[i as int]));
        }
        i += 1;
    }
    u64_from_le_bytes(head.as_slice())
}

/// Fast 64-bit content hash: the keyed BLAKE3 hash under the fixed key,
/// truncated to its first eight bytes (little-endian).
pub fn fast_hash(data: &[u8]) -> (r: u64)
    ensures
        r == fast_hash_of(data@),
{
    let key: [u8; 32] = [0x42u8; 32];
    proof {
        assert(key@ =~= fast_hash_key());
    }
    let digest = blake3_keyed_hash(&key, data);
    prefix_u64(&digest)
}

/// [`fast_hash`] of all parts laid end to end.
pub fn fast_hash_from_parts(parts: &[&[u8]]) -> (r: u64)
    ensures
        r == fast_hash_of(concat_parts(parts_view(parts@))),
{
    let mut all: Vec<u8> = Vec::new();
    let mut i: usize = 0;
    while i < parts.len()
        invariant
            i <= parts.len(),
            all@ == concat_parts(parts_view(parts@).take(i as int)),
        decreases parts.len() - i,
    {
        all.extend_from_slice(parts[i]);
        proof {
            assert(parts_view(parts@).take(i as int + 1).drop_last() =~= parts_view(parts@).take(i as int));
        }
        i += 1;
    }
    proof {
        assert(parts_view(parts@).take(parts.len() as int) =~= parts_view(parts@));
    }
    fast_hash(all.as_slice())
}

/// Where the parts are split does not matter: two parts hash like the one
/// part made of both.
pub proof fn law_parts_split_invariant(a: Seq<u8>, b: Seq<u8>)
    ensures
        fast_hash_of(concat_parts(seq![a, b])) == fast_hash_of(concat_parts(seq![a + b])),
{
    assert(seq![a, b].drop_last() =~= seq![a]);
    assert(seq![a].drop_last() =~= Seq::<Seq<u8>>::empty());
    assert(seq![a + b].drop_last() =~= Seq::<Seq<u8>>::empty());
    assert(concat_parts(Seq::<Seq<u8>>::empty()) == Seq::<u8>::empty());
    assert(concat_parts(seq![a]) == concat_parts(Seq::<Seq<u8>>::empty()) + a);
    assert(concat_parts(seq![a]) =~= a);
    assert(concat_parts(seq![a, b]) == concat_parts(seq![a]) + b);
    assert(concat_parts(seq![a + b]) == concat_parts(Seq::<Seq<u8>>::empty()) + (a + b));
    assert(concat_parts(seq![a + b]) =~= a + b);
}

/// The fields the cache key is computed from agree: everything but the job
/// and node ids.
pub open spec fn same_key_fields(a: KernelMetadata, b: KernelMetadata) -> bool {
    &&& a.operation@ == b.operation@
    &&& a.dtype@ == b.dtype@
    &&& a.shape@ == b.shape@
    &&& a.strides@ == b.strides@
    &&& a.radius == b.radius
    &&& a.matmul_m == b.matmul_m
    &&& a.matmul_n == b.matmul_n
    &&& a.matmul_k == b.matmul_k
    &&& a.matmul_trans_a == b.matmul_trans_a
    &&& a.matmul_trans_b == b.matmul_trans_b
    &&& a.matmul_batch == b.matmul_batch
    &&& a.vendor@ == b.vendor@
    &&& a.arch@ == b.arch@
    &&& a.driver_version@ == b.driver_version@
    &&& a.capabilities == b.capabilities
}

/// The job and node a kernel ran for do not enter its cache key: metadata
/// that agree on everything else have the same bytes, hence the same key.
pub proof fn law_key_ignores_job_and_node(a: KernelMetadata, b: KernelMetadata)
    requires
        same_key_fields(a, b),
    ensures
        serialized(a) == serialized(b),
{
    assert(matmul_bytes(a) == matmul_bytes(b));
}

proof fn lemma_extents_bytes(s: Seq<usize>, i: int)
    requires
        0 <= i < s.len(),
    ensures
        extents_bytes(s).len() == 8 * s.len(),
        extents_bytes(s).subrange(8 * i, 8 * i + 8) == le64(s[i] as u64),
    decreases s.len(),
{
    lemma_auto_spec_u64_to_from_le_bytes();
    let p = s.drop_last();
    if i < s.len() - 1 {
        lemma_extents_bytes(p, i);
        assert(extents_bytes(s).subrange(8 * i, 8 * i + 8) =~= extents_bytes(p).subrange(8 * i, 8 * i + 8));
    } else {
        if p.len() > 0 {
            lemma_extents_bytes(p, 0);
        } else {
            assert(extents_bytes(p) =~= Seq::<u8>::empty());
        }
        assert(extents_bytes(s).subrange(8 * i, 8 * i + 8) =~= le64(s.last() as u64));
    }
}

proof fn lemma_extents_len(s: Seq<usize>)
    ensures
        extents_bytes(s).len() == 8 * s.len(),
{
    if s.len() > 0 {
        lemma_extents_bytes(s, 0);
    }
}

/// The cache key covers the shape: metadata that differ in their shape
/// (with the same operation and dtype) have different bytes, so a kernel is
/// compiled again when the tensor shape changes.
pub proof fn law_key_covers_shape(a: KernelMetadata, b: KernelMetadata)
    requires
        a.operation@ == b.operation@,
        a.dtype@ == b.dtype@,
        a.shape@ != b.shape@,
    ensures
        serialized(a) != serialized(b),
{
    lemma_auto_spec_u64_to_from_le_bytes();
    assert(a.shape.len() == a.shape@.len() && b.shape.len() == b.shape@.len());
    let pre = padded(encode_utf8(a.operation@), 32) + padded(encode_utf8(a.dtype@), 16);
    assert(pre == padded(encode_utf8(b.operation@), 32) + padded(encode_utf8(b.dtype@), 16));
    assert(pre.len() == 48);
    let sa = serialized(a);
    let sb = serialized(b);
    let la = le64(a.shape@.len() as u64);
    let lb = le64(b.shape@.len() as u64);
    lemma_extents_len(a.shape@);
    lemma_extents_len(b.shape@);
    let ta = padded(encode_utf8(a.operation@), 32) + padded(encode_utf8(a.dtype@), 16) + la + extents_bytes(a.shape@);
    let tb = padded(encode_utf8(b.operation@), 32) + padded(encode_utf8(b.dtype@), 16) + lb + extents_bytes(b.shape@);
    assert(sa.subrange(0, ta.len() as int) =~= ta);
    assert(sb.subrange(0, tb.len() as int) =~= tb);
    if a.shape@.len() != b.shape@.len() {
        assert(sa.subrange(48, 56) =~= la);
        assert(sb.subrange(48, 56) =~= lb);
        assert(spec_u64_from_le_bytes(la) != spec_u64_from_le_bytes(lb));
        assert(sa.subrange(48, 56) != sb.subrange(48, 56));
    } else {
        let n = a.shape@.len();
        assert(exists|i: int| 0 <= i < n && a.shape@[i] != b.shape@[i]) by {
            if forall|i: int| 0 <= i < n ==> a.shape@[i] == b.shape@[i] {
                assert(a.shape@ =~= b.shape@);
            }
        }
        let i = choose|i: int| 0 <= i < n && a.shape@[i] != b.shape@[i];
        lemma_extents_bytes(a.shape@, i);
        lemma_extents_bytes(b.shape@, i);
        let ea = le64(a.shape@[i] as u64);
        let eb = le64(b.shape@[i] as u64);
        assert(sa.subrange(56 + 8 * i, 64 + 8 * i) =~= extents_bytes(a.shape@).subrange(8 * i, 8 * i + 8));
        assert(sb.subrange(56 + 8 * i, 64 + 8 * i) =~= extents_bytes(b.shape@).subrange(8 * i, 8 * i + 8));
        assert(spec_u64_from_le_bytes(ea) != spec_u64_from_le_bytes(eb));
        assert(sa.subrange(56 + 8 * i, 64 + 8 * i) != sb.subrange(56 + 8 * i, 64 + 8 * i));
    }
}

proof fn lemma_strides_bytes(s: Seq<isize>, i: int)
    requires
        0 <= i < s.len(),
    ensures
        strides_bytes(s).len() == 8 * s.len(),
        strides_bytes(s).subrange(8 * i, 8 * i + 8) == le64((s[i] as i64) as u64),
    decreases s.len(),
{
    lemma_auto_spec_u64_to_from_le_bytes();
    let p = s.drop_last();
    if i < s.len() - 1 {
        lemma_strides_bytes(p, i);
        assert(strides_bytes(s).subrange(8 * i, 8 * i + 8) =~= strides_bytes(p).subrange(8 * i, 8 * i + 8));
    } else {
        if p.len() > 0 {
            lemma_strides_bytes(p, 0);
        } else {
            assert(strides_bytes(p) =~= Seq::<u8>::empty());
        }
        assert(strides_bytes(s).subrange(8 * i, 8 * i + 8) =~= le64((s.last() as i64) as u64));
    }
}

proof fn lemma_strides_len(s: Seq<isize>)
    ensures
        strides_bytes(s).len() == 8 * s.len(),
{
    if s.len() > 0 {
        lemma_strides_bytes(s, 0);
    }
}

/// The cache key covers the strides too: metadata with the same operation,
/// dtype and shape but other strides have different bytes, so a kernel
/// built for one memory layout is not reused for another.
pub proof fn law_key_covers_strides(a: KernelMetadata, b: KernelMetadata)
    requires
        a.operation@ == b.operation@,
        a.dtype@ == b.dtype@,
        a.shape@ == b.shape@,
        a.strides@ != b.strides@,
    ensures
        serialized(a) != serialized(b),
{
    lemma_auto_spec_u64_to_from_le_bytes();
    assert(a.shape.len() == a.shape@.len() && a.strides.len() == a.strides@.len());
    assert(b.shape.len() == b.shape@.len() && b.strides.len() == b.strides@.len());
    let sa = serialized(a);
    let sb = serialized(b);
    lemma_extents_len(a.shape@);
    let pre = padded(encode_utf8(a.operation@), 32) + padded(encode_utf8(a.dtype@), 16) + le64(
        a.shape@.len() as u64,
    ) + extents_bytes(a.shape@);
    assert(pre == padded(encode_utf8(b.operation@), 32) + padded(encode_utf8(b.dtype@), 16) + le64(
        b.shape@.len() as u64,
    ) + extents_bytes(b.shape@));
    let k = pre.len() as int;
    assert(k == 56 + 8 * a.shape@.len());
    let la = le64(a.strides@.len() as u64);
    let lb = le64(b.strides@.len() as u64);
    lemma_strides_len(a.strides@);
    lemma_strides_len(b.strides@);
    let ta = pre + la + strides_bytes(a.strides@);
    let tb = pre + lb + strides_bytes(b.strides@);
    assert(sa.subrange(0, ta.len() as int) =~= ta);
    assert(sb.subrange(0, tb.len() as int) =~= tb);
    if a.strides@.len() != b.strides@.len() {
        assert(sa.subrange(k, k + 8) =~= la);
        assert(sb.subrange(k, k + 8) =~= lb);
        assert(spec_u64_from_le_bytes(la) != spec_u64_from_le_bytes(lb));
        assert(sa.subrange(k, k + 8) != sb.subrange(k, k + 8));
    } else {
        let n = a.strides@.len();
        assert(exists|i: int| 0 <= i < n && a.strides@[i] != b.strides@[i]) by {
            if forall|i: int| 0 <= i < n ==> a.strides@[i] == b.strides@[i] {
                assert(a.strides@ =~= b.strides@);
            }
        }
        let i = choose|i: int| 0 <= i < n && a.strides@[i] != b.strides@[i];
        lemma_strides_bytes(a.strides@, i);
        lemma_strides_bytes(b.strides@, i);
        let x = a.strides@[i] as i64;
        let y = b.strides@[i] as i64;
        assert(x != y);
        assert(x as u64 != y as u64) by (bit_vector)
            requires x != y;
        let ea = le64(x as u64);
        let eb = le64(y as u64);
        assert(sa.subrange(k + 8 + 8 * i, k + 16 + 8 * i) =~= strides_bytes(a.strides@).subrange(8 * i, 8 * i + 8));
        assert(sb.subrange(k + 8 + 8 * i, k + 16 + 8 * i) =~= strides_bytes(b.strides@).subrange(8 * i, 8 * i + 8));
        assert(spec_u64_from_le_bytes(ea) != spec_u64_from_le_bytes(eb));
        assert(sa.subrange(k + 8 + 8 * i, k + 16 + 8 * i) != sb.subrange(k + 8 + 8 * i, k + 16 + 8 * i));
    }
}

/// Where the GEMM block starts in the serialised metadata: after the
/// operation and dtype fields, the shape and the strides with their
/// lengths, and the radius.
pub open spec fn gemm_block_offset(m: KernelMetadata) -> int {
    (48 + 8 + 8 * m.shape@.len() + 8 + 8 * m.strides@.len() + 8) as int
}

/// Where the strides' length sits in the serialised metadata.
pub open spec fn strides_len_offset(m: KernelMetadata) -> int {
    (56 + 8 * m.shape@.len()) as int
}

proof fn lemma_serialized_layout(m: KernelMetadata)
    ensures
        serialized(m).len() >= gemm_block_offset(m) + matmul_bytes(m).len(),
        serialized(m).subrange(48, 56) == le64(m.shape@.len() as u64),
        serialized(m).subrange(strides_len_offset(m), strides_len_offset(m) + 8) == le64(
            m.strides@.len() as u64,
        ),
        serialized(m).subrange(gemm_block_offset(m), gemm_block_offset(m) + matmul_bytes(m).len())
            == matmul_bytes(m),
{
    lemma_auto_spec_u64_to_from_le_bytes();
    lemma_extents_len(m.shape@);
    lemma_strides_len(m.strides@);
    let p1 = padded(encode_utf8(m.operation@), 32) + padded(encode_utf8(m.dtype@), 16);
    let p2 = p1 + le64(m.shape@.len() as u64);
    let p3 = p2 + extents_bytes(m.shape@);
    let p4 = p3 + le64(m.strides@.len() as u64);
    let p5 = p4 + strides_bytes(m.strides@);
    let p6 = p5 + le64(m.radius as u64);
    let p7 = p6 + matmul_bytes(m);
    let sm = serialized(m);
    assert(p1.len() == 48);
    assert(p6.len() == gemm_block_offset(m));
    assert(sm.subrange(0, p7.len() as int) =~= p7);
    assert(sm.subrange(48, 56) =~= p7.subrange(48, 56));
    assert(p7.subrange(48, 56) =~= le64(m.shape@.len() as u64));
    let so = strides_len_offset(m);
    assert(sm.subrange(so, so + 8) =~= p7.subrange(so, so + 8));
    assert(p7.subrange(so, so + 8) =~= le64(m.strides@.len() as u64));
    assert(sm.subrange(p6.len() as int, p7.len() as int) =~= matmul_bytes(m));
}

/// The GEMM fields are laid out in the serialised metadata: where GEMM
/// metadata has its block, the presence flag 1 is followed by `m`, `n` and
/// `k`, each a little-endian `u64` (an absent `n` or `k` counts as 0), at
/// offsets 1, 9 and 17 of the block, then the two transpose flags (absent
/// counts as false) and the batch count (absent counts as 1).
pub proof fn law_gemm_sizes_sit_in_the_gemm_block(m: KernelMetadata)
    requires
        m.matmul_m is Some,
    ensures
        ({
            let s = serialized(m);
            let o = gemm_block_offset(m);
            &&& s[o] == 1u8
            &&& s.subrange(o + 1, o + 9) == le64(m.matmul_m->0 as u64)
            &&& s.subrange(o + 9, o + 17) == le64(or_default(m.matmul_n, 0usize) as u64)
            &&& s.subrange(o + 17, o + 25) == le64(or_default(m.matmul_k, 0usize) as u64)
            &&& s[o + 25] == (if or_default(m.matmul_trans_a, false) { 1u8 } else { 0u8 })
            &&& s[o + 26] == (if or_default(m.matmul_trans_b, false) { 1u8 } else { 0u8 })
            &&& s.subrange(o + 27, o + 35) == le64(or_default(m.matmul_batch, 1usize) as u64)
        }),
{
    lemma_auto_spec_u64_to_from_le_bytes();
    lemma_serialized_layout(m);
    let s = serialized(m);
    let o = gemm_block_offset(m);
    let mm = matmul_bytes(m);
    assert(mm.len() == 35);
    assert(s[o] == s.subrange(o, o + 35)[0]);
    assert(s.subrange(o + 1, o + 9) =~= mm.subrange(1, 9));
    assert(s.subrange(o + 9, o + 17) =~= mm.subrange(9, 17));
    assert(s.subrange(o + 17, o + 25) =~= mm.subrange(17, 25));
    assert(mm.subrange(1, 9) =~= le64(m.matmul_m->0 as u64));
    assert(mm.subrange(9, 17) =~= le64(or_default(m.matmul_n, 0usize) as u64));
    assert(mm.subrange(17, 25) =~= le64(or_default(m.matmul_k, 0usize) as u64));
    assert(s[o + 25] == s.subrange(o, o + 35)[25] && s[o + 26] == s.subrange(o, o + 35)[26]);
    assert(s.subrange(o + 27, o + 35) =~= mm.subrange(27, 35));
    assert(mm.subrange(27, 35) =~= le64(or_default(m.matmul_batch, 1usize) as u64));
}

/// The cache key covers the GEMM sizes: two GEMM metadata with the same
/// bytes (hence the same key) agree on `m`, `n` and `k`, so GEMMs of
/// different sizes never share a compiled kernel.
pub proof fn law_key_covers_gemm_sizes(a: KernelMetadata, b: KernelMetadata)
    requires
        a.matmul_m is Some,
        b.matmul_m is Some,
        serialized(a) == serialized(b),
    ensures
        a.matmul_m == b.matmul_m,
        or_default(a.matmul_n, 0usize) == or_default(b.matmul_n, 0usize),
        or_default(a.matmul_k, 0usize) == or_default(b.matmul_k, 0usize),
{
    lemma_auto_spec_u64_to_from_le_bytes();
    assert(a.shape.len() == a.shape@.len() && a.strides.len() == a.strides@.len());
    assert(b.shape.len() == b.shape@.len() && b.strides.len() == b.strides@.len());
    lemma_serialized_layout(a);
    lemma_serialized_layout(b);
    assert(spec_u64_from_le_bytes(le64(a.shape@.len() as u64)) == spec_u64_from_le_bytes(
        le64(b.shape@.len() as u64),
    ));
    assert(a.shape@.len() == b.shape@.len());
    assert(spec_u64_from_le_bytes(le64(a.strides@.len() as u64)) == spec_u64_from_le_bytes(
        le64(b.strides@.len() as u64),
    ));
    assert(a.strides@.len() == b.strides@.len());
    assert(gemm_block_offset(a) == gemm_block_offset(b));
    law_gemm_sizes_sit_in_the_gemm_block(a);
    law_gemm_sizes_sit_in_the_gemm_block(b);
    let xa = a.matmul_m->0 as u64;
    let xb = b.matmul_m->0 as u64;
    assert(spec_u64_from_le_bytes(le64(xa)) == spec_u64_from_le_bytes(le64(xb)));
    let na = or_default(a.matmul_n, 0usize) as u64;
    let nb = or_default(b.matmul_n, 0usize) as u64;
    assert(spec_u64_from_le_bytes(le64(na)) == spec_u64_from_le_bytes(le64(nb)));
    let ka = or_default(a.matmul_k, 0usize) as u64;
    let kb = or_default(b.matmul_k, 0usize) as u64;
    assert(spec_u64_from_le_bytes(le64(ka)) == spec_u64_from_le_bytes(le64(kb)));
}

} // verus!

use sha2::Digest;
use basalto::kernel_hash::{fast_hash, fast_hash_from_parts, DeviceCapabilities, KernelMetadata};

fn sample() -> KernelMetadata {
    KernelMetadata {
        operation: "stencil_1d".to_string(),
        dtype: "f32".to_string(),
        shape: vec![1024],
        strides: vec![1],
        radius: 1,
        matmul_m: None,
        matmul_n: None,
        matmul_k: None,
        matmul_trans_a: None,
        matmul_trans_b: None,
        matmul_batch: None,
        vendor: "NVIDIA".to_string(),
        arch: "sm_90".to_string(),
        driver_version: "550.54".to_string(),
        job_id: Some("job-7".to_string()),
        node_id: Some("node-3".to_string()),
        capabilities: None,
    }
}

fn padded(s: &str, n: usize) -> Vec<u8> {
    let mut v = vec![0u8; n];
    let b = s.as_bytes();
    let len = b.len().min(n);
    v[..len].copy_from_slice(&b[..len]);
    v
}

#[test]
fn serialized_layout() {
    let m = sample();
    let mut expected = Vec::new();
    expected.extend(padded("stencil_1d", 32));
    expected.extend(padded("f32", 16));
    expected.extend(1u64.to_le_bytes());
    expected.extend(1024u64.to_le_bytes());
    expected.extend(1u64.to_le_bytes());
    expected.extend(1i64.to_le_bytes());
    expected.extend(1u64.to_le_bytes());
    expected.push(0);
    expected.extend(padded("NVIDIA", 16));
    expected.extend(padded("sm_90", 16));
    expected.extend(padded("550.54", 32));
    expected.extend([0u8; 56]);
    assert_eq!(m.to_serialized(), expected);
    assert_eq!(m.to_serialized().len(), 32 + 16 + 8 + 8 + 8 + 8 + 8 + 1 + 16 + 16 + 32 + 56);
}

#[test]
fn serialized_with_gemm_and_capabilities() {
    let mut m = sample();
    m.strides = vec![-2];
    m.matmul_m = Some(64);
    m.matmul_n = Some(32);
    m.matmul_k = Some(16);
    m.matmul_trans_a = Some(true);
    m.matmul_trans_b = None;
    m.matmul_batch = None;
    m.operation = "a_very_long_operation_name_that_exceeds_thirty_two_bytes".to_string();
    m.capabilities = Some(DeviceCapabilities {
        compute_capability_major: 9,
        compute_capability_minor: 0,
        max_threads_per_block: 1024,
        max_shared_memory_per_block: 49152,
        max_registers_per_block: 65536,
        warp_size: 32,
        multi_processor_count: 132,
    });
    let bytes = m.to_serialized();
    assert_eq!(&bytes[..32], &m.operation.as_bytes()[..32]);
    let strides_at = 32 + 16 + 8 + 8 + 8;
    assert_eq!(&bytes[strides_at..strides_at + 8], &(-2i64).to_le_bytes());
    let gemm_at = strides_at + 8 + 8;
    assert_eq!(bytes[gemm_at], 1);
    assert_eq!(&bytes[gemm_at + 1..gemm_at + 9], &64u64.to_le_bytes());
    assert_eq!(bytes[gemm_at + 25], 1);
    assert_eq!(bytes[gemm_at + 26], 0);
    assert_eq!(&bytes[gemm_at + 27..gemm_at + 35], &1u64.to_le_bytes());
    let caps_at = bytes.len() - 56;
    assert_eq!(&bytes[caps_at..caps_at + 8], &9u64.to_le_bytes());
    assert_eq!(&bytes[bytes.len() - 8..], &132u64.to_le_bytes());
}

#[test]
fn cache_key_is_keyed_blake3_hex() {
    let m = sample();
    let key = [7u8; 32];
    let expected = blake3::keyed_hash(&key, &m.to_serialized()).to_hex().to_string();
    let got = m.cache_key(&key);
    assert_eq!(got, expected);
    assert_eq!(got.len(), 64);
    assert_ne!(got, m.cache_key(&[8u8; 32]));
}

#[test]
fn cache_key_ignores_job_and_node() {
    let a = sample();
    let mut b = sample();
    b.job_id = None;
    b.node_id = Some("other".to_string());
    assert_eq!(a.cache_key(&[1u8; 32]), b.cache_key(&[1u8; 32]));
}

#[test]
fn audit_digest_covers_job_and_node() {
    let m = sample();
    let mut data = m.to_serialized();
    data.extend_from_slice(b"job-7");
    data.extend_from_slice(b"node-3");
    assert_eq!(m.audit_bytes(), data);
    let expected = hex::encode(sha2::Sha256::digest(&data));
    assert_eq!(m.audit_digest(), expected);
    let mut other = sample();
    other.job_id = Some("job-8".to_string());
    assert_ne!(other.audit_digest(), m.audit_digest());
}

#[test]
fn fast_hash_is_truncated_keyed_blake3() {
    let data = b"basalto kernel";
    let h = blake3::keyed_hash(&[0x42u8; 32], data);
    let expected = u64::from_le_bytes(h.as_bytes()[0..8].try_into().unwrap());
    assert_eq!(fast_hash(data), expected);
    assert_ne!(fast_hash(b"a"), fast_hash(b"b"));
}

#[test]
fn hashing_parts_equals_hashing_the_whole() {
    let parts: [&[u8]; 3] = [b"bas", b"alto", b" kernel"];
    assert_eq!(fast_hash_from_parts(&parts), fast_hash(b"basalto kernel"));
    let split: [&[u8]; 2] = [b"basalto", b" kernel"];
    assert_eq!(fast_hash_from_parts(&split), fast_hash_from_parts(&parts));
    assert_eq!(fast_hash_from_parts(&[]), fast_hash(b""));
}

#[test]
fn keys_are_sixty_four_hex_digits() {
    let m = sample();
    assert_eq!(m.cache_key(&[3u8; 32]).len(), 64);
    assert_eq!(m.audit_digest().len(), 64);
}

#[test]
fn strides_enter_the_key() {
    let a = sample();
    let mut b = sample();
    b.strides = vec![2];
    assert_ne!(a.strides, b.strides);
    assert_ne!(a.to_serialized(), b.to_serialized());
    assert_ne!(a.cache_key(&[1u8; 32]), b.cache_key(&[1u8; 32]));
}

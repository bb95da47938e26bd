use basalto::kernel_cache::{
    cluster_key, get, plan_request, put, record_compiled, ttl_from_config, CachedKernel, KernelCache, LocalCache, RequestAction,
};

#[test]
fn get_after_put() {
    let mut c = LocalCache::new();
    assert_eq!(get(&c, "k1"), None);
    put(&mut c, "k1", &[1, 2, 3]);
    put(&mut c, "k2", &[4]);
    assert_eq!(get(&c, "k1"), Some(vec![1, 2, 3]));
    assert_eq!(get(&c, "k2"), Some(vec![4]));
    put(&mut c, "k1", &[9]);
    assert_eq!(get(&c, "k1"), Some(vec![9]));
    assert_eq!(get(&c, "k2"), Some(vec![4]));
    assert_eq!(get(&c, "k3"), None);
}

#[test]
fn cluster_keys_are_zero_padded_hex() {
    assert_eq!(cluster_key(0xdeadbeef), "basalto:kernel:00000000deadbeef");
    assert_eq!(cluster_key(0), "basalto:kernel:0000000000000000");
    assert_eq!(cluster_key(u64::MAX), "basalto:kernel:ffffffffffffffff");
    assert_eq!(cluster_key(0x0123456789abcdef), format!("basalto:kernel:{:016x}", 0x0123456789abcdefu64));
}

#[test]
fn ttl_configuration() {
    assert_eq!(ttl_from_config(None), 604800);
    assert_eq!(ttl_from_config(Some("3600")), 3600);
    assert_eq!(ttl_from_config(Some("+5")), 5);
    assert_eq!(ttl_from_config(Some("abc")), 604800);
    assert_eq!(ttl_from_config(Some("")), 604800);
}

fn compiled(binary: &[u8]) -> CachedKernel {
    CachedKernel {
        binary: binary.to_vec(),
        target: "ptx".to_string(),
        tile_x: Some(128),
        tile_y: Some(1),
        shared_mem_bytes: 0,
        radius: 1,
        metadata: None,
    }
}

#[test]
fn first_request_compiles_second_reuses() {
    let mut cache = KernelCache::new();
    assert!(matches!(plan_request(&cache, "k1"), RequestAction::Compile));
    record_compiled(&mut cache, "k1", compiled(b"ptx-1"));
    match plan_request(&cache, "k1") {
        RequestAction::RunCached(e) => assert_eq!(e.binary, b"ptx-1".to_vec()),
        RequestAction::Compile => panic!("the kernel was recorded"),
    }
    assert!(matches!(plan_request(&cache, "k2"), RequestAction::Compile));
    record_compiled(&mut cache, "k1", compiled(b"ptx-2"));
    match plan_request(&cache, "k1") {
        RequestAction::RunCached(e) => assert_eq!(e.binary, b"ptx-2".to_vec()),
        RequestAction::Compile => panic!("the kernel was recorded"),
    }
}

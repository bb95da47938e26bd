use basalto::hardware::{capabilities_or_default, classify_gpu, node_config, parse_nvidia_driver_version, GpuIdentity};
use basalto::kernel_hash::DeviceCapabilities;

const PROC_TEXT: &str = "NVRM version: NVIDIA UNIX x86_64 Kernel Module  550.54.14  Thu Feb 22 01:44:30 UTC 2024\nGCC version:  gcc version 12.3.0\n";

#[test]
fn driver_version_from_procfs() {
    assert_eq!(parse_nvidia_driver_version(PROC_TEXT), "550.54.14  Thu Feb 22 01:44:30 UTC 2024");
}

#[test]
fn driver_version_edge_cases() {
    assert_eq!(parse_nvidia_driver_version(""), "Unknown");
    assert_eq!(parse_nvidia_driver_version("no marker here\nKernel Module 1.0"), "Unknown");
    assert_eq!(parse_nvidia_driver_version("a Kernel Module x Kernel Module y"), "x");
    assert_eq!(parse_nvidia_driver_version("v Kernel Module 535.1\r\nnext"), "535.1");
    assert_eq!(parse_nvidia_driver_version("v Kernel Module\u{3000}1.2\u{a0}"), "1.2");
    assert_eq!(parse_nvidia_driver_version("Kernel Module"), "");
}

#[test]
fn nvidia_wins_over_the_others() {
    let g = classify_gpu(Some(PROC_TEXT), true, Some("0x8086")).unwrap();
    assert_eq!(g.vendor, "NVIDIA");
    assert_eq!(g.arch, "sm_90");
    assert_eq!(g.driver_version, "550.54.14  Thu Feb 22 01:44:30 UTC 2024");
}

#[test]
fn amd_then_intel() {
    let amd = classify_gpu(None, true, Some("0x8086")).unwrap();
    assert_eq!((amd.vendor.as_str(), amd.arch.as_str(), amd.driver_version.as_str()), ("AMD", "gfx942", "ROCm Native"));
    let intel = classify_gpu(None, false, Some(" 0x8086\n")).unwrap();
    assert_eq!(
        (intel.vendor.as_str(), intel.arch.as_str(), intel.driver_version.as_str()),
        ("Intel", "Xe-HPC", "i915/xe")
    );
}

#[test]
fn no_accelerator() {
    assert!(classify_gpu(None, false, Some("0x10de")).is_none());
    assert!(classify_gpu(None, false, None).is_none());
}

#[test]
fn fallback_capabilities() {
    let c = capabilities_or_default(None);
    assert_eq!(c.compute_capability_major, 7);
    assert_eq!(c.compute_capability_minor, 0);
    assert_eq!(c.max_threads_per_block, 1024);
    assert_eq!(c.max_shared_memory_per_block, 49152);
    assert_eq!(c.max_registers_per_block, 65536);
    assert_eq!(c.warp_size, 32);
    assert_eq!(c.multi_processor_count, 80);
    let own = DeviceCapabilities {
        compute_capability_major: 9,
        compute_capability_minor: 0,
        max_threads_per_block: 512,
        max_shared_memory_per_block: 1,
        max_registers_per_block: 2,
        warp_size: 64,
        multi_processor_count: 132,
    };
    assert_eq!(capabilities_or_default(Some(own)).max_threads_per_block, 512);
}

#[test]
fn default_identity_is_empty() {
    let g = GpuIdentity::default();
    assert!(g.vendor.is_empty() && g.arch.is_empty() && g.driver_version.is_empty() && g.node_id.is_empty());
    assert!(g.capabilities.is_none());
}

#[test]
fn node_config_lists_vendor_arch_and_driver() {
    let g = GpuIdentity {
        vendor: "AMD".to_string(),
        arch: "gfx942".to_string(),
        driver_version: "ROCm Native".to_string(),
        node_id: "n1".to_string(),
        capabilities: None,
    };
    assert_eq!(node_config(&g), "vendor=AMD\narch=gfx942\ndriver=ROCm Native\n");
    assert_eq!(node_config(&GpuIdentity::default()), "vendor=\narch=\ndriver=\n");
}

//! Which accelerator a node has. The caller reads the driver files; these
//! functions decide from what they hold, and supply the capabilities
//! assumed for a device that reports none.
use vstd::prelude::*;
use vstd::string::{StrSliceExecFns, StringExecFns};

use crate::kernel_hash::DeviceCapabilities;
use crate::text::{find_chars, first_line, lemma_find_from_range, second_piece, str_eq, trim, trim_text};

verus! {

/// Vendor, architecture and driver version of the detected accelerator.
#[derive(Debug, Clone)]
pub struct GpuInfo {
    pub vendor: String,
    pub arch: String,
    pub driver_version: String,
}

impl View for GpuInfo {
    type V = (Seq<char>, Seq<char>, Seq<char>);

    open spec fn view(&self) -> (Seq<char>, Seq<char>, Seq<char>) {
        (self.vendor@, self.arch@, self.driver_version@)
    }
}

/// What the node reports about its accelerator: its identity, the node it
/// runs on and, when known, the device capabilities.
#[derive(Debug, Clone)]
pub struct GpuIdentity {
    pub vendor: String,
    pub arch: String,
    pub driver_version: String,
    pub node_id: String,
    pub capabilities: Option<DeviceCapabilities>,
}

impl Default for GpuIdentity {
    fn default() -> (r: GpuIdentity)
        ensures
            r.vendor@ == Seq::<char>::empty(),
            r.arch@ == Seq::<char>::empty(),
            r.driver_version@ == Seq::<char>::empty(),
            r.node_id@ == Seq::<char>::empty(),
            r.capabilities is None,
    {
        GpuIdentity {
            vendor: String::new(),
            arch: String::new(),
            driver_version: String::new(),
            node_id: String::new(),
            capabilities: None,
        }
    }
}

/// The driver version in the NVIDIA procfs version text: on its first line,
/// what follows `Kernel Module` (up to a second `Kernel Module`), trimmed;
/// `Unknown` when there is no such line or marker.
pub open spec fn nvidia_driver_version(text: Seq<char>) -> Seq<char> {
    let piece = match first_line(text) {
        None => "Unknown"@,
        Some(l) => match second_piece(l, "Kernel Module"@) {
            None => "Unknown"@,
            Some(p) => p,
        },
    };
    trim(piece)
}

/// The first line of a text, see [`first_line`].
fn first_line_text(s: &str) -> (r: Option<&str>)
    ensures
        match first_line(s@) {
            None => r is None,
            Some(l) => r matches Some(x) && x@ == l,
        },
{
    let n = s.unicode_len();
    if n == 0 {
        return None;
    }
    let nl = find_chars(s, "\n", 0);
    proof {
        reveal_strlit("\n");
        assert("\n"@ =~= seq!['\n']);
        lemma_find_from_range(s@, seq!['\n'], 0);
    }
    match nl {
        None => Some(s),
        Some(i) => {
            let line = s.substring_char(0, i);
            let len = line.unicode_len();
            if len > 0 && line.get_char(len - 1) == '\r' {
                let stripped = line.substring_char(0, len - 1);
                proof {
                    assert(stripped@ =~= line@.drop_last());
                }
                Some(stripped)
            } else {
                Some(line)
            }
        },
    }
}

/// The second piece of `s` split at the nonempty `p`, see [`second_piece`].
fn second_piece_text<'a>(s: &'a str, p: &str) -> (r: Option<&'a str>)
    ensures
        match second_piece(s@, p@) {
            None => r is None,
            Some(q) => r matches Some(x) && x@ == q,
        },
{
    let n = s.unicode_len();
    let m = p.unicode_len();
    proof {
        lemma_find_from_range(s@, p@, 0);
    }
    match find_chars(s, p, 0) {
        None => None,
        Some(i) => {
            let start = i + m;
            proof {
                lemma_find_from_range(s@, p@, start as int);
            }
            match find_chars(s, p, start) {
                None => Some(s.substring_char(start, n)),
                Some(j) => Some(s.substring_char(start, j)),
            }
        },
    }
}

/// The driver version in the NVIDIA procfs version text.
pub fn parse_nvidia_driver_version(text: &str) -> (r: String)
    ensures
        r@ == nvidia_driver_version(text@),
{
    match first_line_text(text) {
        None => trim_text("Unknown"),
        Some(line) => match second_piece_text(line, "Kernel Module") {
            None => trim_text("Unknown"),
            Some(piece) => trim_text(piece),
        },
    }
}

/// The accelerator a node has, from what its driver files report: the
/// NVIDIA version text when `/proc/driver/nvidia/version` could be read;
/// else AMD when the KFD topology or device node exists; else Intel when
/// the PCI vendor of the first DRM card reads `0x8086` (trimmed); else none.
pub open spec fn gpu_choice(nvidia_version: Option<Seq<char>>, amd_present: bool, intel_vendor: Option<Seq<char>>) -> Option<
    (Seq<char>, Seq<char>, Seq<char>),
> {
    match nvidia_version {
        Some(t) => Some(("NVIDIA"@, "sm_90"@, nvidia_driver_version(t))),
        None => if amd_present {
            Some(("AMD"@, "gfx942"@, "ROCm Native"@))
        } else {
            match intel_vendor {
                Some(v) => if trim(v) == "0x8086"@ {
                    Some(("Intel"@, "Xe-HPC"@, "i915/xe"@))
                } else {
                    None
                },
                None => None,
            }
        },
    }
}

/// The text of an optional text.
pub open spec fn opt_text(o: Option<&str>) -> Option<Seq<char>> {
    match o {
        Some(s) => Some(s@),
        None => None,
    }
}

/// The view of an optional GPU description.
pub open spec fn opt_gpu(o: Option<GpuInfo>) -> Option<(Seq<char>, Seq<char>, Seq<char>)> {
    match o {
        Some(g) => Some(g@),
        None => None,
    }
}

/// The accelerator described by the driver files, see [`gpu_choice`].
pub fn classify_gpu(nvidia_version: Option<&str>, amd_present: bool, intel_vendor: Option<&str>) -> (r: Option<
    GpuInfo,
>)
    ensures
        opt_gpu(r) == gpu_choice(opt_text(nvidia_version), amd_present, opt_text(intel_vendor)),
{
    match nvidia_version {
        Some(t) => {
            return Some(
                GpuInfo {
                    vendor: String::from_str("NVIDIA"),
                    arch: String::from_str("sm_90"),
                    driver_version: parse_nvidia_driver_version(t),
                },
            );
        },
        None => {},
    }
    if amd_present {
        return Some(
            GpuInfo {
                vendor: String::from_str("AMD"),
                arch: String::from_str("gfx942"),
                driver_version: String::from_str("ROCm Native"),
            },
        );
    }
    match intel_vendor {
        Some(v) => {
            let id = trim_text(v);
            if str_eq(id.as_str(), "0x8086") {
                return Some(
                    GpuInfo {
                        vendor: String::from_str("Intel"),
                        arch: String::from_str("Xe-HPC"),
                        driver_version: String::from_str("i915/xe"),
                    },
                );
            }
            None
        },
        None => None,
    }
}

/// The capabilities assumed for a device that reports none: compute
/// capability 7.0, 1024 threads and 48 KiB of shared memory per block,
/// 65536 registers, warps of 32 and 80 multiprocessors.
pub open spec fn fallback_caps() -> DeviceCapabilities {
    DeviceCapabilities {
        compute_capability_major: 7,
        compute_capability_minor: 0,
        max_threads_per_block: 1024,
        max_shared_memory_per_block: 49152,
        max_registers_per_block: 65536,
        warp_size: 32,
        multi_processor_count: 80,
    }
}

/// The reported capabilities, or the fallback ones.
pub fn capabilities_or_default(caps: Option<DeviceCapabilities>) -> (r: DeviceCapabilities)
    ensures
        r == (match caps {
            Some(c) => c,
            None => fallback_caps(),
        }),
{
    match caps {
        Some(c) => c,
        None => DeviceCapabilities {
            compute_capability_major: 7,
            compute_capability_minor: 0,
            max_threads_per_block: 1024,
            max_shared_memory_per_block: 49152,
            max_registers_per_block: 65536,
            warp_size: 32,
            multi_processor_count: 80,
        },
    }
}

/// The node configuration the installer writes: `vendor=`, `arch=` and
/// `driver=` lines.
pub open spec fn config_text(vendor: Seq<char>, arch: Seq<char>, driver: Seq<char>) -> Seq<char> {
    "vendor="@ + vendor + "\narch="@ + arch + "\ndriver="@ + driver + "\n"@
}

/// The node configuration of an accelerator.
pub fn node_config(gpu: &GpuIdentity) -> (r: String)
    ensures
        r@ == config_text(gpu.vendor@, gpu.arch@, gpu.driver_version@),
{
    let mut s = String::from_str("vendor=");
    s.append(gpu.vendor.as_str());
    s.append("\narch=");
    s.append(gpu.arch.as_str());
    s.append("\ndriver=");
    s.append(gpu.driver_version.as_str());
    s.append("\n");
    s
}

} // verus!

//! Code generation back ends: the always-available textual PTX generator
//! and the AMD and Intel entry points, which are not implemented yet.
use vstd::prelude::*;
use vstd::utf8::encode_utf8;

verus! {

/// Why a back end produced no code.
#[derive(Debug, PartialEq, Eq, Structural)]
pub enum BackendError {
    /// The FLIR program is empty: there is nothing to generate.
    EmptyFlir,
    /// The AMD (HSACO) code generator is not implemented yet.
    AmdCodegenUnavailable,
    /// The AMD (HIP) runtime is not implemented yet.
    HipRuntimeUnavailable,
    /// The Intel (SPIR-V) code generator is not implemented yet.
    IntelCodegenUnavailable,
    /// The Intel (Level Zero) runtime is not implemented yet.
    LevelZeroRuntimeUnavailable,
}

/// The UTF-8 bytes of a text.
#[verifier::opaque]
pub open spec fn utf8(s: Seq<char>) -> Seq<u8> {
    encode_utf8(s)
}

/// The bytes start with `sm_`.
pub open spec fn is_sm_arch(b: Seq<u8>) -> bool {
    b.len() >= 3 && b[0] == 0x73u8 && b[1] == 0x6du8 && b[2] == 0x5fu8
}

/// The architecture the PTX targets: `arch` when it names an `sm_`
/// architecture, `sm_80` otherwise.
pub open spec fn target_arch(arch: Seq<u8>) -> Seq<u8> {
    if is_sm_arch(arch) {
        arch
    } else {
        utf8("sm_80"@)
    }
}

/// The lines of the kernel after its `.target` line.
pub open spec fn ptx_body() -> Seq<u8> {
    utf8(".address_size 64\n\n"@) + utf8(".entry basalto_kernel (\n"@) + utf8("    .param .u64 input_ptr,\n"@)
        + utf8("    .param .u64 output_ptr\n"@) + utf8(")\n{\n"@) + utf8("    .reg .b64 %rd<4>;\n"@)
        + utf8("    .reg .f32 %f<2>;\n"@) + utf8("    .reg .b32 %r<1>;\n\n"@) + utf8("    mov.u32 %r0, %tid.x;\n"@)
        + utf8("    ld.param.u64 %rd1, [input_ptr];\n"@) + utf8("    ld.param.u64 %rd2, [output_ptr];\n"@)
        + utf8("    ld.global.f32 %f0, [%rd1];\n"@) + utf8("    st.global.f32 [%rd2], %f0;\n"@) + utf8("    ret;\n"@)
        + utf8("}\n"@)
}

/// The PTX module the textual back end emits for a target architecture.
pub open spec fn ptx_module(arch: Seq<u8>) -> Seq<u8> {
    utf8(".version 7.5\n"@) + utf8(".target "@) + target_arch(arch) + utf8("\n"@) + ptx_body()
}

fn push_text(buf: &mut Vec<u8>, s: &str)
    ensures
        final(buf)@ == old(buf)@ + utf8(s@),
{
    buf.extend_from_slice(s.as_bytes());
    proof {
        reveal(utf8);
    }
}

fn push_ptx_body(ptx: &mut Vec<u8>)
    ensures
        final(ptx)@ == old(ptx)@ + ptx_body(),
{
    push_text(ptx, ".address_size 64\n\n");
    push_text(ptx, ".entry basalto_kernel (\n");
    push_text(ptx, "    .param .u64 input_ptr,\n");
    push_text(ptx, "    .param .u64 output_ptr\n");
    push_text(ptx, ")\n{\n");
    push_text(ptx, "    .reg .b64 %rd<4>;\n");
    push_text(ptx, "    .reg .f32 %f<2>;\n");
    push_text(ptx, "    .reg .b32 %r<1>;\n\n");
    push_text(ptx, "    mov.u32 %r0, %tid.x;\n");
    push_text(ptx, "    ld.param.u64 %rd1, [input_ptr];\n");
    push_text(ptx, "    ld.param.u64 %rd2, [output_ptr];\n");
    push_text(ptx, "    ld.global.f32 %f0, [%rd1];\n");
    push_text(ptx, "    st.global.f32 [%rd2], %f0;\n");
    push_text(ptx, "    ret;\n");
    push_text(ptx, "}\n");
    proof {
        assert(ptx@ =~= old(ptx)@ + ptx_body());
    }
}

/// Textual PTX for `flir`: a one-element copy kernel targeting `arch`, or
/// `sm_80` when `arch` is not an `sm_` name. Fails on an empty program.
pub fn generate_ptx(flir: &str, arch: &str) -> (r: Result<Vec<u8>, BackendError>)
    ensures
        flir@.len() == 0 ==> r matches Err(BackendError::EmptyFlir),
        flir@.len() != 0 ==> (r matches Ok(b) && b@ == ptx_module(utf8(arch@))),
{
    if flir.is_empty() {
        return Err(BackendError::EmptyFlir);
    }
    let arch_bytes = arch.as_bytes();
    let mut ptx: Vec<u8> = Vec::new();
    push_text(&mut ptx, ".version 7.5\n");
    push_text(&mut ptx, ".target ");
    if arch_bytes.len() >= 3 && arch_bytes[0] == 0x73u8 && arch_bytes[1] == 0x6du8 && arch_bytes[2] == 0x5fu8 {
        ptx.extend_from_slice(arch_bytes);
    } else {
        push_text(&mut ptx, "sm_80");
    }
    push_text(&mut ptx, "\n");
    let ghost before_body = ptx@;
    push_ptx_body(&mut ptx);
    proof {
        reveal(utf8);
        assert(ptx@ =~= ptx_module(utf8(arch@)));
    }
    Ok(ptx)
}

/// AMD HSACO generation: not implemented, always fails.
pub fn generate_hsaco_textual(_flir: &str, _arch: &str) -> (r: Result<Vec<u8>, BackendError>)
    ensures
        r matches Err(BackendError::AmdCodegenUnavailable),
{
    Err(BackendError::AmdCodegenUnavailable)
}

/// AMD HIP execution: not implemented, always fails.
pub fn execute_hip(_binary: &[u8]) -> (r: Result<(), BackendError>)
    ensures
        r matches Err(BackendError::HipRuntimeUnavailable),
{
    Err(BackendError::HipRuntimeUnavailable)
}

/// Intel SPIR-V generation: not implemented, always fails.
pub fn generate_spirv_textual(_flir: &str, _arch: &str) -> (r: Result<Vec<u8>, BackendError>)
    ensures
        r matches Err(BackendError::IntelCodegenUnavailable),
{
    Err(BackendError::IntelCodegenUnavailable)
}

/// Intel Level Zero execution: not implemented, always fails.
pub fn execute_level_zero(_binary: &[u8]) -> (r: Result<(), BackendError>)
    ensures
        r matches Err(BackendError::LevelZeroRuntimeUnavailable),
{
    Err(BackendError::LevelZeroRuntimeUnavailable)
}

} // verus!

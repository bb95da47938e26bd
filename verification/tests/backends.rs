use basalto::backends::{
    execute_hip, execute_level_zero, generate_hsaco_textual, generate_ptx, generate_spirv_textual, BackendError,
};

fn expected_ptx(target: &str) -> String {
    let mut p = String::new();
    p.push_str(".version 7.5\n");
    p.push_str(&format!(".target {}\n", target));
    p.push_str(".address_size 64\n\n");
    p.push_str(".entry basalto_kernel (\n");
    p.push_str("    .param .u64 input_ptr,\n");
    p.push_str("    .param .u64 output_ptr\n");
    p.push_str(")\n{\n");
    p.push_str("    .reg .b64 %rd<4>;\n");
    p.push_str("    .reg .f32 %f<2>;\n");
    p.push_str("    .reg .b32 %r<1>;\n\n");
    p.push_str("    mov.u32 %r0, %tid.x;\n");
    p.push_str("    ld.param.u64 %rd1, [input_ptr];\n");
    p.push_str("    ld.param.u64 %rd2, [output_ptr];\n");
    p.push_str("    ld.global.f32 %f0, [%rd1];\n");
    p.push_str("    st.global.f32 [%rd2], %f0;\n");
    p.push_str("    ret;\n");
    p.push_str("}\n");
    p
}

#[test]
fn ptx_for_sm_arch() {
    let ptx = generate_ptx("y = x", "sm_90").unwrap();
    assert_eq!(String::from_utf8(ptx).unwrap(), expected_ptx("sm_90"));
}

#[test]
fn ptx_falls_back_to_sm_80() {
    let ptx = generate_ptx("y = x", "gfx942").unwrap();
    assert_eq!(String::from_utf8(ptx).unwrap(), expected_ptx("sm_80"));
    let ptx = generate_ptx("y = x", "sm").unwrap();
    assert_eq!(String::from_utf8(ptx).unwrap(), expected_ptx("sm_80"));
}

#[test]
fn empty_flir_is_rejected() {
    assert_eq!(generate_ptx("", "sm_90").unwrap_err(), BackendError::EmptyFlir);
}

#[test]
fn unimplemented_backends_fail() {
    assert_eq!(generate_hsaco_textual("x", "gfx942").unwrap_err(), BackendError::AmdCodegenUnavailable);
    assert_eq!(execute_hip(&[1]).unwrap_err(), BackendError::HipRuntimeUnavailable);
    assert_eq!(generate_spirv_textual("x", "xe").unwrap_err(), BackendError::IntelCodegenUnavailable);
    assert_eq!(execute_level_zero(&[]).unwrap_err(), BackendError::LevelZeroRuntimeUnavailable);
}

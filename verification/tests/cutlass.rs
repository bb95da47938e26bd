use basalto::cutlass::{
    cache_key, generate_cutlass_source, generate_fused_epilogue, CompileRequest, CutlassError, CutlassJit, FusedOp,
    GemmConfig,
};

fn config(dtype: &str, op: FusedOp) -> GemmConfig {
    GemmConfig {
        m: 64,
        n: 32,
        k: 16,
        batch: 1,
        dtype: dtype.to_string(),
        trans_a: false,
        trans_b: true,
        fused_op: op,
        arch: "sm_80".to_string(),
    }
}

#[test]
fn key_of_a_config() {
    assert_eq!(cache_key(&config("f32", FusedOp::Bias)), "gemm_f32_64x32x16_b1_trans01_fusedBias_sm_80");
    assert_eq!(cache_key(&config("f16", FusedOp::NoFusion)), "gemm_f16_64x32x16_b1_trans01_fusedNone_sm_80");
}

#[test]
fn epilogues() {
    assert_eq!(generate_fused_epilogue(FusedOp::NoFusion, "float"), String::new());
    let e = |f: &str, el: &str| {
        format!("\nusing Epilogue = cutlass::epilogue::thread::{}<\n    {}, 1, {}, {}\n>;\n", f, el, el, el)
    };
    assert_eq!(generate_fused_epilogue(FusedOp::Bias, "float"), e("LinearCombination", "float"));
    assert_eq!(generate_fused_epilogue(FusedOp::Scale, "double"), e("LinearCombination", "double"));
    assert_eq!(generate_fused_epilogue(FusedOp::BiasScale, "half"), e("LinearCombination", "half"));
    assert_eq!(generate_fused_epilogue(FusedOp::Relu, "half"), e("LinearCombination", "half"));
    assert_eq!(generate_fused_epilogue(FusedOp::BiasRelu, "float"), e("LinearCombinationRelu", "float"));
    assert_eq!(generate_fused_epilogue(FusedOp::BiasReluScale, "float"), e("LinearCombinationRelu", "float"));
    assert_eq!(generate_fused_epilogue(FusedOp::Gelu, "float"), e("LinearCombinationGELU", "float"));
    assert_eq!(generate_fused_epilogue(FusedOp::BiasGelu, "double"), e("LinearCombinationGELU", "double"));
}

#[test]
fn key_tells_architectures_apart() {
    let a = config("f32", FusedOp::Gelu);
    let mut b = config("f32", FusedOp::Gelu);
    b.arch = "sm_90".to_string();
    assert_eq!(cache_key(&a), "gemm_f32_64x32x16_b1_trans01_fusedGelu_sm_80");
    assert_ne!(cache_key(&a), cache_key(&b));
}

#[test]
fn source_names_element_and_accumulator() {
    let s = generate_cutlass_source(&config("f16", FusedOp::NoFusion)).unwrap();
    assert!(s.contains("using Element = half;\nusing ElementAccumulator = double;"));
    assert!(s.starts_with("\n#include <cutlass/cutlass.h>"));
    let f = generate_cutlass_source(&config("f32", FusedOp::Bias)).unwrap();
    assert!(f.contains("using Element = float;\nusing ElementAccumulator = float;"));
}

#[test]
fn source_errors() {
    assert_eq!(generate_cutlass_source(&config("i8", FusedOp::Gelu)), Err(CutlassError::UnsupportedDtype));
    assert!(generate_cutlass_source(&config("f64", FusedOp::BiasScale)).is_ok());
}

#[test]
fn jit_builds_then_serves_from_cache() {
    let mut jit = CutlassJit::new();
    let c = config("f32", FusedOp::NoFusion);
    match jit.prepare(&c).unwrap() {
        CompileRequest::Build { key, source, program_name } => {
            assert_eq!(key, "gemm_f32_64x32x16_b1_trans01_fusedNone_sm_80");
            assert_eq!(program_name, "cutlass_gemm_gemm_f32_64x32x16_b1_trans01_fusedNone_sm_80");
            assert_eq!(Ok(source), generate_cutlass_source(&c));
            jit.store(&key, b"ptx-bytes");
        }
        CompileRequest::Cached(_) => panic!("nothing was compiled yet"),
    }
    match jit.prepare(&c).unwrap() {
        CompileRequest::Cached(p) => assert_eq!(p, b"ptx-bytes".to_vec()),
        CompileRequest::Build { .. } => panic!("the PTX was stored"),
    }
}

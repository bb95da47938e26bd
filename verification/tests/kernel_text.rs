use basalto::kernel_text::{append_decimal, extract_radius, history_key, serialize_shapes_signature};

#[test]
fn decimal_digits() {
    let mut s = String::from("n=");
    append_decimal(&mut s, 0);
    append_decimal(&mut s, 1024);
    assert_eq!(s, "n=01024");
}

#[test]
fn shapes_signature() {
    assert_eq!(serialize_shapes_signature(&[vec![1, 3, 224, 224]]), "1_3_224_224");
    assert_eq!(serialize_shapes_signature(&[vec![1], vec![2, 3]]), "1-2_3");
    assert_eq!(serialize_shapes_signature(&[]), "");
    assert_eq!(serialize_shapes_signature(&[vec![], vec![5]]), "-5");
}

#[test]
fn history_key_formats_like_debug() {
    assert_eq!(history_key("conv", "f32", &[1, 2]), "conv:f32:[1, 2]");
    assert_eq!(history_key("gemm", "f16", &[]), "gemm:f16:[]");
    assert_eq!(history_key("s", "f64", &[7]), "s:f64:[7]");
}

#[test]
fn radius_from_name() {
    assert_eq!(extract_radius("stencil_3d_r4"), 4);
    assert_eq!(extract_radius("stencil_r12_r3"), 12);
    assert_eq!(extract_radius("s_r+7"), 7);
}

#[test]
fn radius_from_order() {
    assert_eq!(extract_radius("x_order_8"), 4);
    assert_eq!(extract_radius("x_order_12"), 6);
}

#[test]
fn radius_defaults_to_one() {
    assert_eq!(extract_radius("plain"), 1);
    assert_eq!(extract_radius("a_r_r5"), 1);
    assert_eq!(extract_radius("a_r"), 1);
    assert_eq!(extract_radius("a_r99999999999999999999999"), 1);
}

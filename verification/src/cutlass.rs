//! CUTLASS GEMM kernels: cache keys, CUDA source generation and the
//! per-configuration cache of compiled PTX. Compiling the source with NVRTC
//! is left to the caller.
use vstd::prelude::*;
use vstd::string::StringExecFns;

use crate::kernel_cache::{get, put, LocalCache};
use crate::hexdigits::hex_char;
use crate::kernel_text::{append_decimal, decimal};
use crate::text::str_eq;

verus! {

/// Epilogue operation fused into a GEMM; `NoFusion` prints as `None`.
#[derive(Debug, Clone, Copy, PartialEq, Eq)]
pub enum FusedOp {
    NoFusion,
    Bias,
    Relu,
    Gelu,
    BiasRelu,
    BiasGelu,
    Scale,
    BiasScale,
    BiasReluScale,
}

/// A fused GEMM to compile.
pub struct GemmConfig {
    pub m: usize,
    pub n: usize,
    pub k: usize,
    pub batch: usize,
    /// Element type: `f32`, `f64` or `f16`.
    pub dtype: String,
    pub trans_a: bool,
    pub trans_b: bool,
    pub fused_op: FusedOp,
    /// Target architecture, such as `sm_80`.
    pub arch: String,
}

/// Why no CUDA source could be generated.
#[derive(Debug, PartialEq, Eq)]
pub enum CutlassError {
    /// The element type is not `f32`, `f64` or `f16`.
    UnsupportedDtype,
}

/// The name of a fused operation, as `{:?}` prints it.
pub open spec fn fused_op_name(op: FusedOp) -> Seq<char> {
    match op {
        FusedOp::NoFusion => "None"@,
        FusedOp::Bias => "Bias"@,
        FusedOp::Relu => "Relu"@,
        FusedOp::Gelu => "Gelu"@,
        FusedOp::BiasRelu => "BiasRelu"@,
        FusedOp::BiasGelu => "BiasGelu"@,
        FusedOp::Scale => "Scale"@,
        FusedOp::BiasScale => "BiasScale"@,
        FusedOp::BiasReluScale => "BiasReluScale"@,
    }
}

fn fused_op_text(op: FusedOp) -> (r: &'static str)
    ensures
        r@ == fused_op_name(op),
{
    match op {
        FusedOp::NoFusion => "None",
        FusedOp::Bias => "Bias",
        FusedOp::Relu => "Relu",
        FusedOp::Gelu => "Gelu",
        FusedOp::BiasRelu => "BiasRelu",
        FusedOp::BiasGelu => "BiasGelu",
        FusedOp::Scale => "Scale",
        FusedOp::BiasScale => "BiasScale",
        FusedOp::BiasReluScale => "BiasReluScale",
    }
}

/// A flag as the digit 0 or 1.
pub open spec fn bit_text(b: bool) -> Seq<char> {
    decimal(if b { 1nat } else { 0nat })
}

/// `gemm_{dtype}_{m}x{n}x{k}_b{batch}_trans{a}{b}_fused{op}_{arch}`: every
/// field of the configuration, so kernels built for different architectures
/// are kept apart.
pub open spec fn gemm_key_text(c: GemmConfig) -> Seq<char> {
    "gemm_"@ + c.dtype@ + "_"@ + decimal(c.m as nat) + "x"@ + decimal(c.n as nat) + "x"@ + decimal(c.k as nat)
        + "_b"@ + decimal(c.batch as nat) + "_trans"@ + bit_text(c.trans_a) + bit_text(c.trans_b) + "_fused"@
        + fused_op_name(c.fused_op) + "_"@ + c.arch@
}

/// The cache key of a GEMM configuration.
pub fn cache_key(config: &GemmConfig) -> (r: String)
    ensures
        r@ == gemm_key_text(*config),
{
    let mut s = String::from_str("gemm_");
    s.append(config.dtype.as_str());
    s.append("_");
    append_decimal(&mut s, config.m as u64);
    s.append("x");
    append_decimal(&mut s, config.n as u64);
    s.append("x");
    append_decimal(&mut s, config.k as u64);
    s.append("_b");
    append_decimal(&mut s, config.batch as u64);
    s.append("_trans");
    append_decimal(&mut s, if config.trans_a { 1 } else { 0 });
    append_decimal(&mut s, if config.trans_b { 1 } else { 0 });
    s.append("_fused");
    s.append(fused_op_text(config.fused_op));
    s.append("_");
    s.append(config.arch.as_str());
    s
}

/// No character of `t` is `c`.
pub open spec fn lacks(t: Seq<char>, c: char) -> bool {
    forall|i: int| 0 <= i < t.len() ==> t[i] != c
}

/// A decimal digit.
pub open spec fn is_decimal_digit(c: char) -> bool {
    '0' <= c <= '9'
}

proof fn lemma_decimal_digits(n: nat)
    ensures
        decimal(n).len() >= 1,
        forall|i: int| 0 <= i < decimal(n).len() ==> #[trigger] is_decimal_digit(decimal(n)[i]),
    decreases n,
{
    if n >= 10 {
        lemma_decimal_digits(n / 10);
    }
}

proof fn lemma_decimal_injective(a: nat, b: nat)
    requires
        decimal(a) == decimal(b),
    ensures
        a == b,
    decreases a,
{
    lemma_decimal_digits(a);
    lemma_decimal_digits(b);
    let da = decimal(a);
    let db = decimal(b);
    if a >= 10 && b >= 10 {
        lemma_decimal_digits(a / 10);
        lemma_decimal_digits(b / 10);
        assert(da.last() == db.last());
        assert(hex_char((a % 10) as u8) == hex_char((b % 10) as u8));
        assert(a % 10 == b % 10);
        assert(decimal(a / 10) =~= da.drop_last());
        assert(decimal(b / 10) =~= db.drop_last());
        lemma_decimal_injective(a / 10, b / 10);
        assert(a == 10 * (a / 10) + a % 10 && b == 10 * (b / 10) + b % 10) by (nonlinear_arith);
    } else if a >= 10 {
        lemma_decimal_digits(a / 10);
        assert(da.len() >= 2);
    } else if b >= 10 {
        lemma_decimal_digits(b / 10);
        assert(db.len() >= 2);
    } else {
        assert(da[0] == db[0]);
        assert(hex_char(a as u8) == hex_char(b as u8));
    }
}

/// Two texts joined to what follows them, each ending where the first `c`
/// occurs, are the same text with the same remainder.
proof fn lemma_split_at(x1: Seq<char>, r1: Seq<char>, x2: Seq<char>, r2: Seq<char>, c: char)
    requires
        x1 + r1 == x2 + r2,
        r1.len() > 0 && r1[0] == c,
        r2.len() > 0 && r2[0] == c,
        lacks(x1, c),
        lacks(x2, c),
    ensures
        x1 == x2,
        r1 == r2,
{
    let t = x1 + r1;
    if x1.len() < x2.len() {
        assert(t[x1.len() as int] == c);
        assert((x2 + r2)[x1.len() as int] == x2[x1.len() as int]);
    } else if x2.len() < x1.len() {
        assert((x2 + r2)[x2.len() as int] == c);
        assert(t[x2.len() as int] == x1[x2.len() as int]);
    } else {
        assert(x1 =~= t.subrange(0, x1.len() as int));
        assert(x2 =~= (x2 + r2).subrange(0, x2.len() as int));
        assert(r1 =~= t.skip(x1.len() as int));
        assert(r2 =~= (x2 + r2).skip(x2.len() as int));
    }
}

/// A decimal followed by `sep`: the number and what follows `sep` are determined.
proof fn lemma_split_decimal(a: nat, b: nat, sep: Seq<char>, r1: Seq<char>, r2: Seq<char>)
    requires
        decimal(a) + (sep + r1) == decimal(b) + (sep + r2),
        sep.len() > 0,
        !is_decimal_digit(sep[0]),
    ensures
        a == b,
        r1 == r2,
{
    lemma_decimal_digits(a);
    lemma_decimal_digits(b);
    let c = sep[0];
    assert(lacks(decimal(a), c)) by {
        assert forall|i: int| 0 <= i < decimal(a).len() implies decimal(a)[i] != c by {
            assert(is_decimal_digit(decimal(a)[i]));
        }
    }
    assert(lacks(decimal(b), c)) by {
        assert forall|i: int| 0 <= i < decimal(b).len() implies decimal(b)[i] != c by {
            assert(is_decimal_digit(decimal(b)[i]));
        }
    }
    assert((sep + r1)[0] == c);
    assert((sep + r2)[0] == c);
    lemma_split_at(decimal(a), sep + r1, decimal(b), sep + r2, c);
    lemma_decimal_injective(a, b);
    assert(r1 =~= (sep + r1).skip(sep.len() as int));
    assert(r2 =~= (sep + r2).skip(sep.len() as int));
}

proof fn lemma_fused_op_names(a: FusedOp, b: FusedOp)
    ensures
        fused_op_name(a).len() > 0,
        lacks(fused_op_name(a), '_'),
        fused_op_name(a) == fused_op_name(b) ==> a == b,
{
    reveal_strlit("None");
    reveal_strlit("Bias");
    reveal_strlit("Relu");
    reveal_strlit("Gelu");
    reveal_strlit("BiasRelu");
    reveal_strlit("BiasGelu");
    reveal_strlit("Scale");
    reveal_strlit("BiasScale");
    reveal_strlit("BiasReluScale");
    let x = fused_op_name(a);
    let y = fused_op_name(b);
    if x == y {
        assert(x.len() == y.len());
        assert(x[0] == y[0]);
        if x.len() > 4 {
            assert(x[4] == y[4]);
        }
    }
}

#[verifier::opaque]
spec fn tail_op(c: GemmConfig) -> Seq<char> {
    fused_op_name(c.fused_op) + ("_"@ + c.arch@)
}

#[verifier::opaque]
spec fn tail_bits(c: GemmConfig) -> Seq<char> {
    bit_text(c.trans_a) + bit_text(c.trans_b) + ("_fused"@ + tail_op(c))
}

#[verifier::opaque]
spec fn tail_batch(c: GemmConfig) -> Seq<char> {
    decimal(c.batch as nat) + ("_trans"@ + tail_bits(c))
}

#[verifier::opaque]
spec fn tail_k(c: GemmConfig) -> Seq<char> {
    decimal(c.k as nat) + ("_b"@ + tail_batch(c))
}

#[verifier::opaque]
spec fn tail_n(c: GemmConfig) -> Seq<char> {
    decimal(c.n as nat) + ("x"@ + tail_k(c))
}

#[verifier::opaque]
spec fn tail_m(c: GemmConfig) -> Seq<char> {
    decimal(c.m as nat) + ("x"@ + tail_n(c))
}

proof fn lemma_seq_assoc(x: Seq<char>, y: Seq<char>, z: Seq<char>)
    ensures
        (x + y) + z == x + (y + z),
{
    assert((x + y) + z =~= x + (y + z));
}

proof fn lemma_key_tails(c: GemmConfig)
    ensures
        gemm_key_text(c) == "gemm_"@ + (c.dtype@ + ("_"@ + tail_m(c))),
{
    let (dm, dn, dk, db) = (decimal(c.m as nat), decimal(c.n as nat), decimal(c.k as nat), decimal(c.batch as nat));
    let (ba, bb) = (bit_text(c.trans_a), bit_text(c.trans_b));
    let op = fused_op_name(c.fused_op);
    let x0 = "gemm_"@ + c.dtype@ + "_"@;
    let x1 = x0 + dm + "x"@;
    let x2 = x1 + dn + "x"@;
    let x3 = x2 + dk + "_b"@;
    let x4 = x3 + db + "_trans"@;
    let x5 = x4 + ba + bb + "_fused"@;
    reveal(tail_op);
    lemma_seq_assoc(x5 + op, "_"@, c.arch@);
    lemma_seq_assoc(x5, op, "_"@ + c.arch@);
    assert(gemm_key_text(c) == x5 + tail_op(c));
    reveal(tail_bits);
    lemma_seq_assoc(x4 + ba + bb, "_fused"@, tail_op(c));
    lemma_seq_assoc(x4 + ba, bb, "_fused"@ + tail_op(c));
    lemma_seq_assoc(x4, ba, bb + ("_fused"@ + tail_op(c)));
    lemma_seq_assoc(ba, bb, "_fused"@ + tail_op(c));
    assert(gemm_key_text(c) == x4 + tail_bits(c));
    reveal(tail_batch);
    lemma_seq_assoc(x3 + db, "_trans"@, tail_bits(c));
    lemma_seq_assoc(x3, db, "_trans"@ + tail_bits(c));
    assert(gemm_key_text(c) == x3 + tail_batch(c));
    reveal(tail_k);
    lemma_seq_assoc(x2 + dk, "_b"@, tail_batch(c));
    lemma_seq_assoc(x2, dk, "_b"@ + tail_batch(c));
    assert(gemm_key_text(c) == x2 + tail_k(c));
    reveal(tail_n);
    lemma_seq_assoc(x1 + dn, "x"@, tail_k(c));
    lemma_seq_assoc(x1, dn, "x"@ + tail_k(c));
    assert(gemm_key_text(c) == x1 + tail_n(c));
    reveal(tail_m);
    lemma_seq_assoc(x0 + dm, "x"@, tail_n(c));
    lemma_seq_assoc(x0, dm, "x"@ + tail_n(c));
    assert(gemm_key_text(c) == x0 + tail_m(c));
    lemma_seq_assoc("gemm_"@ + c.dtype@, "_"@, tail_m(c));
    lemma_seq_assoc("gemm_"@, c.dtype@, "_"@ + tail_m(c));
}

proof fn lemma_bits_tail(a: GemmConfig, b: GemmConfig)
    requires
        tail_bits(a) == tail_bits(b),
    ensures
        a.trans_a == b.trans_a,
        a.trans_b == b.trans_b,
        tail_op(a) == tail_op(b),
{
    reveal(tail_bits);
    reveal_strlit("_fused");
    reveal_strlit("0");
    reveal_strlit("1");
    let ta = tail_bits(a);
    let tb = tail_bits(b);
    assert(bit_text(a.trans_a) == seq![if a.trans_a { '1' } else { '0' }]);
    assert(bit_text(a.trans_b) == seq![if a.trans_b { '1' } else { '0' }]);
    assert(bit_text(b.trans_a) == seq![if b.trans_a { '1' } else { '0' }]);
    assert(bit_text(b.trans_b) == seq![if b.trans_b { '1' } else { '0' }]);
    assert(ta[0] == tb[0] && ta[1] == tb[1]);
    assert(tail_op(a) =~= ta.skip(8));
    assert(tail_op(b) =~= tb.skip(8));
}

proof fn lemma_op_tail(a: GemmConfig, b: GemmConfig)
    requires
        tail_op(a) == tail_op(b),
    ensures
        a.fused_op == b.fused_op,
        a.arch@ == b.arch@,
{
    reveal(tail_op);
    reveal_strlit("_");
    lemma_fused_op_names(a.fused_op, b.fused_op);
    lemma_fused_op_names(b.fused_op, a.fused_op);
    lemma_split_at(fused_op_name(a.fused_op), "_"@ + a.arch@, fused_op_name(b.fused_op), "_"@ + b.arch@, '_');
    assert(a.arch@ =~= ("_"@ + a.arch@).skip(1));
    assert(b.arch@ =~= ("_"@ + b.arch@).skip(1));
}

/// The GEMM key names its configuration: two configurations whose dtypes
/// hold no `_` (as `f32`, `f64` and `f16` do) and whose keys agree agree on
/// every field, the architecture included, so only equal configurations
/// share PTX.
pub proof fn law_gemm_key_identifies_config(a: GemmConfig, b: GemmConfig)
    requires
        lacks(a.dtype@, '_'),
        lacks(b.dtype@, '_'),
        gemm_key_text(a) == gemm_key_text(b),
    ensures
        a.dtype@ == b.dtype@,
        a.m == b.m,
        a.n == b.n,
        a.k == b.k,
        a.batch == b.batch,
        a.trans_a == b.trans_a,
        a.trans_b == b.trans_b,
        a.fused_op == b.fused_op,
        a.arch@ == b.arch@,
{
    reveal_strlit("gemm_");
    reveal_strlit("_");
    reveal_strlit("x");
    reveal_strlit("_b");
    reveal_strlit("_trans");
    lemma_key_tails(a);
    lemma_key_tails(b);
    let ka = a.dtype@ + ("_"@ + tail_m(a));
    let kb = b.dtype@ + ("_"@ + tail_m(b));
    assert(ka =~= gemm_key_text(a).skip(5));
    assert(kb =~= gemm_key_text(b).skip(5));
    lemma_split_at(a.dtype@, "_"@ + tail_m(a), b.dtype@, "_"@ + tail_m(b), '_');
    assert(tail_m(a) =~= ("_"@ + tail_m(a)).skip(1));
    assert(tail_m(b) =~= ("_"@ + tail_m(b)).skip(1));
    reveal(tail_m);
    lemma_split_decimal(a.m as nat, b.m as nat, "x"@, tail_n(a), tail_n(b));
    reveal(tail_n);
    lemma_split_decimal(a.n as nat, b.n as nat, "x"@, tail_k(a), tail_k(b));
    reveal(tail_k);
    lemma_split_decimal(a.k as nat, b.k as nat, "_b"@, tail_batch(a), tail_batch(b));
    reveal(tail_batch);
    lemma_split_decimal(a.batch as nat, b.batch as nat, "_trans"@, tail_bits(a), tail_bits(b));
    lemma_bits_tail(a, b);
    lemma_op_tail(a, b);
}

/// The CUDA element type of a dtype name.
pub open spec fn cuda_element(dtype: Seq<char>) -> Option<Seq<char>> {
    if dtype == "f32"@ {
        Some("float"@)
    } else if dtype == "f64"@ {
        Some("double"@)
    } else if dtype == "f16"@ {
        Some("half"@)
    } else {
        None
    }
}

/// The CUDA accumulator type: `float` for `f32`, `double` otherwise.
pub open spec fn cuda_accumulator(dtype: Seq<char>) -> Seq<char> {
    if dtype == "f32"@ {
        "float"@
    } else {
        "double"@
    }
}

/// The CUTLASS epilogue functor of a fusion: a plain linear combination
/// for bias, scaling (both are the `alpha`/`beta` terms) and a bare `Relu`;
/// the functor with a ReLU or a GELU built in when the activation is
/// combined with a bias; `None` for no fusion.
pub open spec fn epilogue_functor(op: FusedOp) -> Option<Seq<char>> {
    match op {
        FusedOp::NoFusion => None,
        FusedOp::Bias | FusedOp::Relu | FusedOp::Scale | FusedOp::BiasScale => Some("LinearCombination"@),
        FusedOp::BiasRelu | FusedOp::BiasReluScale => Some("LinearCombinationRelu"@),
        FusedOp::Gelu | FusedOp::BiasGelu => Some("LinearCombinationGELU"@),
    }
}

/// The value of a text of decimal digits, most significant first.
pub open spec fn decimal_text_value(t: Seq<char>) -> int
    decreases t.len(),
{
    if t.len() == 0 {
        0
    } else {
        decimal_text_value(t.drop_last()) * 10 + (t.last() as int - '0' as int)
    }
}

/// The bit width a floating-point dtype name spells after its leading `f`:
/// 64 for `f64`.
pub open spec fn float_bits(dtype: Seq<char>) -> int {
    decimal_text_value(dtype.skip(1))
}

/// The size in bytes of a CUDA floating-point type: 2 for `half`, 4 for
/// `float`, 8 for `double`; 0 for any other name.
pub open spec fn cuda_type_bytes(t: Seq<char>) -> int {
    if t == "half"@ {
        2
    } else if t == "float"@ {
        4
    } else if t == "double"@ {
        8
    } else {
        0
    }
}

proof fn lemma_type_names()
    ensures
        cuda_type_bytes("half"@) == 2,
        cuda_type_bytes("float"@) == 4,
        cuda_type_bytes("double"@) == 8,
        float_bits("f16"@) == 16,
        float_bits("f32"@) == 32,
        float_bits("f64"@) == 64,
        "f16"@ != "f32"@ && "f16"@ != "f64"@ && "f32"@ != "f64"@,
        "half"@ != "float"@ && "half"@ != "double"@ && "float"@ != "double"@,
{
    reveal_strlit("half");
    reveal_strlit("float");
    reveal_strlit("double");
    reveal_strlit("f16");
    reveal_strlit("f32");
    reveal_strlit("f64");
    assert("half"@[0] != "float"@[0] && "half"@[0] != "double"@[0] && "float"@[0] != "double"@[0]);
    assert("f16"@[1] != "f32"@[1] && "f16"@[1] != "f64"@[1] && "f32"@[1] != "f64"@[1]);
    reveal_with_fuel(decimal_text_value, 3);
    assert("f16"@.skip(1) =~= seq!['1', '6']);
    assert("f32"@.skip(1) =~= seq!['3', '2']);
    assert("f64"@.skip(1) =~= seq!['6', '4']);
    assert(seq!['1', '6'].drop_last() =~= seq!['1']);
    assert(seq!['3', '2'].drop_last() =~= seq!['3']);
    assert(seq!['6', '4'].drop_last() =~= seq!['6']);
    assert(seq!['1'].drop_last() =~= Seq::<char>::empty());
    assert(seq!['3'].drop_last() =~= Seq::<char>::empty());
    assert(seq!['6'].drop_last() =~= Seq::<char>::empty());
}

/// The CUDA element type of a supported dtype is as wide as the dtype says
/// (`f64` elements are 8-byte `double`s, `f32` 4-byte `float`s, `f16`
/// 2-byte `half`s), and the accumulator is never narrower than the element.
pub proof fn law_element_type_has_the_dtype_width(dtype: Seq<char>)
    ensures
        cuda_element(dtype) matches Some(t) ==> 8 * cuda_type_bytes(t) == float_bits(dtype)
            && cuda_type_bytes(cuda_accumulator(dtype)) >= cuda_type_bytes(t),
{
    lemma_type_names();
}

/// Different dtypes never share a CUDA element type, so no two precisions
/// compile to the same kernel source.
pub proof fn law_element_types_are_distinct(d1: Seq<char>, d2: Seq<char>)
    ensures
        cuda_element(d1) is Some && cuda_element(d1) == cuda_element(d2) ==> d1 == d2,
{
    lemma_type_names();
}

/// The generated CUDA source declares an element type as wide as the
/// configuration's dtype and an accumulator at least as wide.
pub proof fn law_source_uses_the_dtype_width(c: GemmConfig)
    ensures
        cutlass_source(c) is Ok ==> exists|el: Seq<char>, acc: Seq<char>|
            cutlass_source(c) == Ok::<Seq<char>, CutlassError>(#[trigger] gemm_source_text(el, acc)) && 8
                * cuda_type_bytes(el) == float_bits(c.dtype@) && cuda_type_bytes(acc) >= cuda_type_bytes(el),
{
    law_element_type_has_the_dtype_width(c.dtype@);
    if cutlass_source(c) is Ok {
        let el = cuda_element(c.dtype@)->0;
        let acc = cuda_accumulator(c.dtype@);
        assert(cutlass_source(c) == Ok::<Seq<char>, CutlassError>(gemm_source_text(el, acc)));
    }
}

/// The epilogue declaration of a fusion over `element`: empty for no fusion.
pub open spec fn epilogue_text(op: FusedOp, element: Seq<char>) -> Seq<char> {
    match epilogue_functor(op) {
        None => Seq::empty(),
        Some(f) => "\nusing Epilogue = cutlass::epilogue::thread::"@ + f + "<\n    "@ + element + ", 1, "@
            + element + ", "@ + element + "\n>;\n"@,
    }
}

fn epilogue_functor_text(op: FusedOp) -> (r: Option<&'static str>)
    ensures
        match epilogue_functor(op) {
            None => r is None,
            Some(f) => r matches Some(t) && t@ == f,
        },
{
    match op {
        FusedOp::NoFusion => None,
        FusedOp::Bias | FusedOp::Relu | FusedOp::Scale | FusedOp::BiasScale => Some("LinearCombination"),
        FusedOp::BiasRelu | FusedOp::BiasReluScale => Some("LinearCombinationRelu"),
        FusedOp::Gelu | FusedOp::BiasGelu => Some("LinearCombinationGELU"),
    }
}

/// The epilogue declaration of a fusion; every fusion type has one.
pub fn generate_fused_epilogue(fused_op: FusedOp, element: &str) -> (r: String)
    ensures
        r@ == epilogue_text(fused_op, element@),
{
    match epilogue_functor_text(fused_op) {
        None => String::new(),
        Some(functor) => {
            let mut s = String::from_str("\nusing Epilogue = cutlass::epilogue::thread::");
            s.append(functor);
            s.append("<\n    ");
            s.append(element);
            s.append(", 1, ");
            s.append(element);
            s.append(", ");
            s.append(element);
            s.append("\n>;\n");
            s
        },
    }
}

/// The CUDA source of a CUTLASS GEMM kernel over `element` accumulating in `acc`.
pub open spec fn gemm_source_text(element: Seq<char>, acc: Seq<char>) -> Seq<char> {
    "\n#include <cutlass/cutlass.h>\n#include <cutlass/gemm/device/gemm.h>\n#include <cutlass/epilogue/thread/linear_combination.h>\n#include <cutlass/epilogue/thread/bias.h>\n#include <cutlass/epilogue/thread/relu.h>\n#include <cutlass/epilogue/thread/gelu.h>\n#include <cutlass/epilogue/thread/scale.h>\n\n// Definições de tipo para o GEMM\nusing Element = "@ + element + ";\nusing ElementAccumulator = "@ + acc + ";\n\n// Configuração do GEMM\nusing Gemm = cutlass::gemm::device::Gemm<\n    Element, cutlass::layout::RowMajor,\n    Element, cutlass::layout::RowMajor,\n    Element, cutlass::layout::RowMajor,\n    ElementAccumulator,\n    cutlass::arch::OpClassTensorOp,\n    cutlass::arch::Sm80,\n    cutlass::gemm::GemmShape<64, 64, 32>,\n    cutlass::gemm::GemmShape<32, 32, 32>,\n    cutlass::gemm::GemmShape<16, 8, 16>,\n    cutlass::epilogue::thread::LinearCombination<\n        Element,\n        1,\n        ElementAccumulator,\n        ElementAccumulator\n    >,\n    cutlass::gemm::threadblock::GemmIdentityThreadblockSwizzle<>,\n    2\n>;\n\nextern \"C\" __global__ void cutlass_gemm_kernel(\n    const Element* A,\n    const Element* B,\n    Element* C,\n    int m,\n    int n,\n    int k,\n    int batch\n) {\n    // Aloca memória compartilhada\n    extern __shared__ char shared_mem[];\n\n    // Parâmetros do GEMM\n    cutlass::gemm::GemmCoord problem_size(m, n, k);\n\n    // Instancia o kernel\n    Gemm gemm_op;\n\n    // Argumentos\n    typename Gemm::Arguments args(\n        problem_size,\n        {A, cutlass::layout::RowMajor().stride(k)},\n        {B, cutlass::layout::RowMajor().stride(n)},\n        {C, cutlass::layout::RowMajor().stride(n)},\n        {Element(1), Element(0)}\n    );\n\n    // Lança o kernel\n    cutlass::Status status = gemm_op(args, shared_mem);\n    if (status != cutlass::Status::kSuccess) {\n        return;\n    }\n}\n"@
}

/// The CUDA source of a configuration: fails exactly for an unknown element type.
pub open spec fn cutlass_source(c: GemmConfig) -> Result<Seq<char>, CutlassError> {
    match cuda_element(c.dtype@) {
        None => Err(CutlassError::UnsupportedDtype),
        Some(el) => Ok(gemm_source_text(el, cuda_accumulator(c.dtype@))),
    }
}

/// The CUDA source of a CUTLASS kernel for the configuration.
pub fn generate_cutlass_source(config: &GemmConfig) -> (r: Result<String, CutlassError>)
    ensures
        match cutlass_source(*config) {
            Ok(t) => r matches Ok(s) && s@ == t,
            Err(e) => r == Err::<String, CutlassError>(e),
        },
{
    let dtype = config.dtype.as_str();
    let element: &str = if str_eq(dtype, "f32") {
        "float"
    } else if str_eq(dtype, "f64") {
        "double"
    } else if str_eq(dtype, "f16") {
        "half"
    } else {
        return Err(CutlassError::UnsupportedDtype);
    };
    let acc: &str = if str_eq(dtype, "f32") {
        "float"
    } else {
        "double"
    };
    let mut s = String::from_str("\n#include <cutlass/cutlass.h>\n#include <cutlass/gemm/device/gemm.h>\n#include <cutlass/epilogue/thread/linear_combination.h>\n#include <cutlass/epilogue/thread/bias.h>\n#include <cutlass/epilogue/thread/relu.h>\n#include <cutlass/epilogue/thread/gelu.h>\n#include <cutlass/epilogue/thread/scale.h>\n\n// Definições de tipo para o GEMM\nusing Element = ");
    s.append(element);
    s.append(";\nusing ElementAccumulator = ");
    s.append(acc);
    s.append(";\n\n// Configuração do GEMM\nusing Gemm = cutlass::gemm::device::Gemm<\n    Element, cutlass::layout::RowMajor,\n    Element, cutlass::layout::RowMajor,\n    Element, cutlass::layout::RowMajor,\n    ElementAccumulator,\n    cutlass::arch::OpClassTensorOp,\n    cutlass::arch::Sm80,\n    cutlass::gemm::GemmShape<64, 64, 32>,\n    cutlass::gemm::GemmShape<32, 32, 32>,\n    cutlass::gemm::GemmShape<16, 8, 16>,\n    cutlass::epilogue::thread::LinearCombination<\n        Element,\n        1,\n        ElementAccumulator,\n        ElementAccumulator\n    >,\n    cutlass::gemm::threadblock::GemmIdentityThreadblockSwizzle<>,\n    2\n>;\n\nextern \"C\" __global__ void cutlass_gemm_kernel(\n    const Element* A,\n    const Element* B,\n    Element* C,\n    int m,\n    int n,\n    int k,\n    int batch\n) {\n    // Aloca memória compartilhada\n    extern __shared__ char shared_mem[];\n\n    // Parâmetros do GEMM\n    cutlass::gemm::GemmCoord problem_size(m, n, k);\n\n    // Instancia o kernel\n    Gemm gemm_op;\n\n    // Argumentos\n    typename Gemm::Arguments args(\n        problem_size,\n        {A, cutlass::layout::RowMajor().stride(k)},\n        {B, cutlass::layout::RowMajor().stride(n)},\n        {C, cutlass::layout::RowMajor().stride(n)},\n        {Element(1), Element(0)}\n    );\n\n    // Lança o kernel\n    cutlass::Status status = gemm_op(args, shared_mem);\n    if (status != cutlass::Status::kSuccess) {\n        return;\n    }\n}\n");
    Ok(s)
}

/// What compiling a configuration takes: nothing when its PTX is cached,
/// else an NVRTC build of `source` under `program_name`, to be stored
/// under `key` afterwards.
pub enum CompileRequest {
    Cached(Vec<u8>),
    Build { key: String, source: String, program_name: String },
}

/// Compiled fused-GEMM kernels by configuration.
pub struct CutlassJit {
    cache: LocalCache,
}

impl CutlassJit {
    /// The cached PTX by cache key.
    pub closed spec fn compiled(&self) -> Map<Seq<char>, Seq<u8>> {
        self.cache.contents()
    }

    /// A JIT with nothing compiled.
    pub fn new() -> (r: CutlassJit)
        ensures
            r.compiled() == Map::<Seq<char>, Seq<u8>>::empty(),
    {
        CutlassJit { cache: LocalCache::new() }
    }

    /// The cached PTX of the configuration, or the build to run: the source
    /// and the NVRTC program name `cutlass_gemm_{key}`. Fails like
    /// [`generate_cutlass_source`] when nothing is cached.
    pub fn prepare(&self, config: &GemmConfig) -> (r: Result<CompileRequest, CutlassError>)
        ensures
            self.compiled().contains_key(gemm_key_text(*config)) ==> (r matches Ok(CompileRequest::Cached(p))
                && p@ == self.compiled()[gemm_key_text(*config)]),
            !self.compiled().contains_key(gemm_key_text(*config)) ==> match cutlass_source(*config) {
                Ok(t) => r matches Ok(CompileRequest::Build { key, source, program_name }) && key@ == gemm_key_text(
                    *config,
                ) && source@ == t && program_name@ == "cutlass_gemm_"@ + gemm_key_text(*config),
                Err(e) => r matches Err(e2) && e2 == e,
            },
    {
        let key = cache_key(config);
        match get(&self.cache, key.as_str()) {
            Some(ptx) => {
                return Ok(CompileRequest::Cached(ptx));
            },
            None => {},
        }
        let source = match generate_cutlass_source(config) {
            Ok(source) => source,
            Err(e) => {
                return Err(e);
            },
        };
        let mut program_name = String::from_str("cutlass_gemm_");
        program_name.append(key.as_str());
        Ok(CompileRequest::Build { key, source, program_name })
    }

    /// Stores the PTX compiled for a cache key.
    pub fn store(&mut self, key: &str, ptx: &[u8])
        ensures
            final(self).compiled() == old(self).compiled().insert(key@, ptx@),
    {
        put(&mut self.cache, key, ptx);
    }
}

} // verus!

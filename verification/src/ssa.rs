//! The SSA form of a FLIR stencil program, as the agnostic LLVM back end
//! reads it: the register table it sizes, and the order in which it finds
//! an argument or register used before it is defined.
use vstd::prelude::*;

verus! {

/// One SSA instruction over a flat mesh index.
#[derive(Debug, PartialEq, Eq)]
pub enum SsaOp {
    /// Tensor argument `id` of the kernel.
    DeclareArgument { id: usize },
    /// Register `id` gets the element of tensor `tensor_id` at the current
    /// index shifted by the first offset.
    LoadCoordinate { id: usize, tensor_id: usize, offsets: Vec<i64> },
    /// Register `id` gets the sum of two registers.
    MathAdd { id: usize, lhs: usize, rhs: usize },
    /// Register `id` gets the product of two registers.
    MathMul { id: usize, lhs: usize, rhs: usize },
    /// The register `value_to_store` is written to tensor `tensor_id` at the current index.
    StoreCoordinate { tensor_id: usize, value_to_store: usize },
}

/// Why an SSA program cannot be lowered.
#[derive(Debug, PartialEq, Eq, Structural)]
pub enum SsaError {
    /// A load reads a tensor that is not a declared argument.
    UndeclaredArgument(usize),
    /// An arithmetic operand is a register not yet defined.
    UninitializedRegister(usize),
    /// A store writes a tensor that is not a declared argument.
    UndeclaredDestination(usize),
    /// A store writes a register not yet defined.
    EmptyRegister(usize),
}

/// The register an instruction defines (0 for a store, which defines none).
pub open spec fn op_id(op: SsaOp) -> usize {
    match op {
        SsaOp::DeclareArgument { id } => id,
        SsaOp::LoadCoordinate { id, .. } => id,
        SsaOp::MathAdd { id, .. } => id,
        SsaOp::MathMul { id, .. } => id,
        SsaOp::StoreCoordinate { .. } => 0,
    }
}

/// The largest register id of the program, 0 when it is empty.
pub open spec fn max_id(ops: Seq<SsaOp>) -> usize
    decreases ops.len(),
{
    if ops.len() == 0 {
        0
    } else {
        let m = max_id(ops.drop_last());
        let k = op_id(ops.last());
        if k > m {
            k
        } else {
            m
        }
    }
}

/// `k` is declared as an argument somewhere in the program.
pub open spec fn declared(ops: Seq<SsaOp>, k: usize) -> bool {
    exists|i: int| 0 <= i < ops.len() && ops[i] == (SsaOp::DeclareArgument { id: k })
}

/// Every id an instruction uses fits the register table.
pub open spec fn ids_in_table(ops: Seq<SsaOp>) -> bool {
    forall|i: int|
        0 <= i < ops.len() ==> match #[trigger] ops[i] {
            SsaOp::LoadCoordinate { tensor_id, .. } => tensor_id <= max_id(ops),
            SsaOp::MathAdd { lhs, rhs, .. } => lhs <= max_id(ops) && rhs <= max_id(ops),
            SsaOp::MathMul { lhs, rhs, .. } => lhs <= max_id(ops) && rhs <= max_id(ops),
            SsaOp::StoreCoordinate { tensor_id, value_to_store } => tensor_id <= max_id(ops) && value_to_store
                <= max_id(ops),
            _ => true,
        }
}

/// The registers defined by the instructions before position `n`.
pub open spec fn defined_before(ops: Seq<SsaOp>, n: int, r: usize) -> bool {
    exists|i: int|
        0 <= i < n && match #[trigger] ops[i] {
            SsaOp::LoadCoordinate { id, .. } => id == r,
            SsaOp::MathAdd { id, .. } => id == r,
            SsaOp::MathMul { id, .. } => id == r,
            _ => false,
        }
}

/// The verdict on instruction `i`, the instructions before it being fine.
pub open spec fn op_verdict(ops: Seq<SsaOp>, i: int) -> Result<(), SsaError> {
    match ops[i] {
        SsaOp::DeclareArgument { .. } => Ok(()),
        SsaOp::LoadCoordinate { tensor_id, .. } => if declared(ops, tensor_id) {
            Ok(())
        } else {
            Err(SsaError::UndeclaredArgument(tensor_id))
        },
        SsaOp::MathAdd { lhs, rhs, .. } => if !defined_before(ops, i, lhs) {
            Err(SsaError::UninitializedRegister(lhs))
        } else if !defined_before(ops, i, rhs) {
            Err(SsaError::UninitializedRegister(rhs))
        } else {
            Ok(())
        },
        SsaOp::MathMul { lhs, rhs, .. } => if !defined_before(ops, i, lhs) {
            Err(SsaError::UninitializedRegister(lhs))
        } else if !defined_before(ops, i, rhs) {
            Err(SsaError::UninitializedRegister(rhs))
        } else {
            Ok(())
        },
        SsaOp::StoreCoordinate { tensor_id, value_to_store } => if !declared(ops, tensor_id) {
            Err(SsaError::UndeclaredDestination(tensor_id))
        } else if !defined_before(ops, i, value_to_store) {
            Err(SsaError::EmptyRegister(value_to_store))
        } else {
            Ok(())
        },
    }
}

/// The verdict on the instructions from position `i` on: the first error
/// met in program order, if any.
pub open spec fn verdict_from(ops: Seq<SsaOp>, i: int) -> Result<(), SsaError>
    decreases ops.len() - i,
{
    if i < 0 || i >= ops.len() {
        Ok(())
    } else {
        match op_verdict(ops, i) {
            Err(e) => Err(e),
            Ok(_) => verdict_from(ops, i + 1),
        }
    }
}

/// The largest register id of the program, sizing its register table.
pub fn max_register(ops: &[SsaOp]) -> (r: usize)
    ensures
        r == max_id(ops@),
{
    let mut m: usize = 0;
    let mut i: usize = 0;
    while i < ops.len()
        invariant
            i <= ops@.len(),
            m == max_id(ops@.take(i as int)),
        decreases ops@.len() - i,
    {
        proof {
            assert(ops@.take(i as int + 1).drop_last() =~= ops@.take(i as int));
        }
        let k: usize = match &ops[i] {
            SsaOp::DeclareArgument { id } => *id,
            SsaOp::LoadCoordinate { id, .. } => *id,
            SsaOp::MathAdd { id, .. } => *id,
            SsaOp::MathMul { id, .. } => *id,
            SsaOp::StoreCoordinate { .. } => 0,
        };
        if k > m {
            m = k;
        }
        i += 1;
    }
    proof {
        assert(ops@.take(ops@.len() as int) =~= ops@);
    }
    m
}

fn is_declared(ops: &[SsaOp], k: usize) -> (r: bool)
    ensures
        r == declared(ops@, k),
{
    let mut j: usize = 0;
    while j < ops.len()
        invariant
            j <= ops@.len(),
            forall|t: int| 0 <= t < j ==> ops@[t] != (SsaOp::DeclareArgument { id: k }),
        decreases ops@.len() - j,
    {
        match &ops[j] {
            SsaOp::DeclareArgument { id } => {
                if *id == k {
                    proof {
                        assert(ops@[j as int] == (SsaOp::DeclareArgument { id: k }));
                    }
                    return true;
                }
            },
            _ => {},
        }
        j += 1;
    }
    false
}

fn is_defined_before(ops: &[SsaOp], n: usize, r: usize) -> (b: bool)
    requires
        n <= ops@.len(),
    ensures
        b == defined_before(ops@, n as int, r),
{
    let mut j: usize = 0;
    while j < n
        invariant
            j <= n,
            n <= ops@.len(),
            !defined_before(ops@, j as int, r),
        decreases n - j,
    {
        let hit = match &ops[j] {
            SsaOp::LoadCoordinate { id, .. } => *id == r,
            SsaOp::MathAdd { id, .. } => *id == r,
            SsaOp::MathMul { id, .. } => *id == r,
            _ => false,
        };
        if hit {
            return true;
        }
        proof {
            if defined_before(ops@, j as int + 1, r) {
                let t = choose|t: int|
                    0 <= t < j + 1 && match #[trigger] ops@[t] {
                        SsaOp::LoadCoordinate { id, .. } => id == r,
                        SsaOp::MathAdd { id, .. } => id == r,
                        SsaOp::MathMul { id, .. } => id == r,
                        _ => false,
                    };
                assert(t < j ==> defined_before(ops@, j as int, r));
            }
        }
        j += 1;
    }
    false
}

/// Checks that every argument and register is defined before it is used,
/// reporting the first offence in program order. Every id an instruction
/// reads must fit the register table.
pub fn check_ssa(ops: &[SsaOp]) -> (r: Result<(), SsaError>)
    requires
        ids_in_table(ops@),
    ensures
        r == verdict_from(ops@, 0),
{
    let mut i: usize = 0;
    while i < ops.len()
        invariant
            i <= ops@.len(),
            verdict_from(ops@, 0) == verdict_from(ops@, i as int),
        decreases ops@.len() - i,
    {
        match &ops[i] {
            SsaOp::DeclareArgument { .. } => {},
            SsaOp::LoadCoordinate { tensor_id, .. } => {
                if !is_declared(ops, *tensor_id) {
                    return Err(SsaError::UndeclaredArgument(*tensor_id));
                }
            },
            SsaOp::MathAdd { lhs, rhs, .. } => {
                if !is_defined_before(ops, i, *lhs) {
                    return Err(SsaError::UninitializedRegister(*lhs));
                }
                if !is_defined_before(ops, i, *rhs) {
                    return Err(SsaError::UninitializedRegister(*rhs));
                }
            },
            SsaOp::MathMul { lhs, rhs, .. } => {
                if !is_defined_before(ops, i, *lhs) {
                    return Err(SsaError::UninitializedRegister(*lhs));
                }
                if !is_defined_before(ops, i, *rhs) {
                    return Err(SsaError::UninitializedRegister(*rhs));
                }
            },
            SsaOp::StoreCoordinate { tensor_id, value_to_store } => {
                if !is_declared(ops, *tensor_id) {
                    return Err(SsaError::UndeclaredDestination(*tensor_id));
                }
                if !is_defined_before(ops, i, *value_to_store) {
                    return Err(SsaError::EmptyRegister(*value_to_store));
                }
            },
        }
        i += 1;
    }
    Ok(())
}

} // verus!

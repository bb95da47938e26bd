use basalto::ssa::{check_ssa, max_register, SsaError, SsaOp};

fn axpy() -> Vec<SsaOp> {
    vec![
        SsaOp::DeclareArgument { id: 0 },
        SsaOp::DeclareArgument { id: 1 },
        SsaOp::LoadCoordinate { id: 2, tensor_id: 0, offsets: vec![0] },
        SsaOp::LoadCoordinate { id: 3, tensor_id: 0, offsets: vec![1] },
        SsaOp::MathAdd { id: 4, lhs: 2, rhs: 3 },
        SsaOp::MathMul { id: 5, lhs: 4, rhs: 4 },
        SsaOp::StoreCoordinate { tensor_id: 1, value_to_store: 5 },
    ]
}

#[test]
fn well_formed_program() {
    assert_eq!(max_register(&axpy()), 5);
    assert_eq!(check_ssa(&axpy()), Ok(()));
    assert_eq!(max_register(&[]), 0);
    assert_eq!(check_ssa(&[]), Ok(()));
}

#[test]
fn arguments_may_be_declared_after_use() {
    let ops = vec![
        SsaOp::LoadCoordinate { id: 1, tensor_id: 0, offsets: vec![] },
        SsaOp::StoreCoordinate { tensor_id: 0, value_to_store: 1 },
        SsaOp::DeclareArgument { id: 0 },
    ];
    assert_eq!(check_ssa(&ops), Ok(()));
}

#[test]
fn first_offence_is_reported() {
    let ops = vec![
        SsaOp::DeclareArgument { id: 0 },
        SsaOp::LoadCoordinate { id: 3, tensor_id: 2, offsets: vec![] },
        SsaOp::MathAdd { id: 4, lhs: 1, rhs: 1 },
    ];
    assert_eq!(check_ssa(&ops), Err(SsaError::UndeclaredArgument(2)));
    let ops = vec![
        SsaOp::DeclareArgument { id: 0 },
        SsaOp::LoadCoordinate { id: 1, tensor_id: 0, offsets: vec![] },
        SsaOp::MathMul { id: 2, lhs: 1, rhs: 2 },
    ];
    assert_eq!(check_ssa(&ops), Err(SsaError::UninitializedRegister(2)));
    let ops = vec![
        SsaOp::DeclareArgument { id: 0 },
        SsaOp::MathAdd { id: 2, lhs: 1, rhs: 0 },
    ];
    assert_eq!(check_ssa(&ops), Err(SsaError::UninitializedRegister(1)));
}

#[test]
fn store_errors() {
    let ops = vec![
        SsaOp::DeclareArgument { id: 0 },
        SsaOp::LoadCoordinate { id: 1, tensor_id: 0, offsets: vec![] },
        SsaOp::StoreCoordinate { tensor_id: 1, value_to_store: 1 },
    ];
    assert_eq!(check_ssa(&ops), Err(SsaError::UndeclaredDestination(1)));
    let ops = vec![
        SsaOp::DeclareArgument { id: 0 },
        SsaOp::DeclareArgument { id: 1 },
        SsaOp::StoreCoordinate { tensor_id: 1, value_to_store: 0 },
    ];
    assert_eq!(check_ssa(&ops), Err(SsaError::EmptyRegister(0)));
}

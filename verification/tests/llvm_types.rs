use ptx::ast::{ScalarType, StateSpace, Type};
use ptx::error::TranslateError;
use ptx::llvm::{
    get_function_type, get_pointer_type, get_scalar_type, get_state_space, get_type, LlvmType,
};

#[test]
fn address_space_table_is_exact() {
    assert_eq!(get_state_space(StateSpace::Generic), Ok(0));
    assert_eq!(get_state_space(StateSpace::Global), Ok(1));
    assert_eq!(get_state_space(StateSpace::Shared), Ok(3));
    assert_eq!(get_state_space(StateSpace::Const), Ok(4));
    assert_eq!(get_state_space(StateSpace::ParamEntry), Ok(4));
    assert_eq!(get_state_space(StateSpace::Local), Ok(5));
    assert_eq!(get_state_space(StateSpace::Reg), Ok(5));
    assert_eq!(get_state_space(StateSpace::Param), Err(TranslateError::Todo));
    assert_eq!(get_state_space(StateSpace::ParamFunc), Err(TranslateError::Todo));
    assert_eq!(get_state_space(StateSpace::SharedCta), Err(TranslateError::Todo));
    assert_eq!(
        get_state_space(StateSpace::SharedCluster),
        Err(TranslateError::Todo)
    );
}

#[test]
fn scalar_types_map_to_llvm() {
    assert!(matches!(get_scalar_type(ScalarType::Pred), Ok(LlvmType::Int(1))));
    assert!(matches!(get_scalar_type(ScalarType::U8), Ok(LlvmType::Int(8))));
    assert!(matches!(get_scalar_type(ScalarType::S16), Ok(LlvmType::Int(16))));
    assert!(matches!(get_scalar_type(ScalarType::B32), Ok(LlvmType::Int(32))));
    assert!(matches!(get_scalar_type(ScalarType::U64), Ok(LlvmType::Int(64))));
    assert!(matches!(get_scalar_type(ScalarType::B128), Ok(LlvmType::Int(128))));
    assert!(matches!(get_scalar_type(ScalarType::F16), Ok(LlvmType::Half)));
    assert!(matches!(get_scalar_type(ScalarType::F32), Ok(LlvmType::Float)));
    assert!(matches!(get_scalar_type(ScalarType::F64), Ok(LlvmType::Double)));
    assert!(matches!(get_scalar_type(ScalarType::BF16), Ok(LlvmType::BFloat)));
    assert_eq!(
        get_scalar_type(ScalarType::F16x2).unwrap_err(),
        TranslateError::Todo
    );
}

#[test]
fn array_dimensions_nest_right_to_left() {
    let t = Type::Array(None, ScalarType::U32, vec![2, 3]);
    match get_type(&t).unwrap() {
        LlvmType::Array(2, inner) => match *inner {
            LlvmType::Array(3, elem) => assert!(matches!(*elem, LlvmType::Int(32))),
            other => panic!("unexpected inner type {:?}", other),
        },
        other => panic!("unexpected outer type {:?}", other),
    }
}

#[test]
fn empty_dimension_list_is_a_flexible_array() {
    let t = Type::Array(None, ScalarType::U8, Vec::new());
    match get_type(&t).unwrap() {
        LlvmType::Array(0, elem) => assert!(matches!(*elem, LlvmType::Int(8))),
        other => panic!("unexpected type {:?}", other),
    }
}

#[test]
fn packed_array_element_is_a_vector() {
    let t = Type::Array(Some(2), ScalarType::F16, vec![4]);
    match get_type(&t).unwrap() {
        LlvmType::Array(4, inner) => match *inner {
            LlvmType::Vector(2, elem) => assert!(matches!(*elem, LlvmType::Half)),
            other => panic!("unexpected element {:?}", other),
        },
        other => panic!("unexpected type {:?}", other),
    }
}

#[test]
fn vectors_and_pointers_map() {
    match get_type(&Type::Vector(4, ScalarType::U32)).unwrap() {
        LlvmType::Vector(4, elem) => assert!(matches!(*elem, LlvmType::Int(32))),
        other => panic!("unexpected type {:?}", other),
    }
    assert!(matches!(
        get_type(&Type::Pointer(ScalarType::U64, StateSpace::Global)).unwrap(),
        LlvmType::Pointer(1)
    ));
    assert!(matches!(
        get_pointer_type(StateSpace::Shared).unwrap(),
        LlvmType::Pointer(3)
    ));
    assert_eq!(
        get_pointer_type(StateSpace::Param).unwrap_err(),
        TranslateError::Todo
    );
}

#[test]
fn function_types_take_zero_or_one_return() {
    let none: Vec<Type> = Vec::new();
    match get_function_type(&none, vec![LlvmType::Int(64)]).unwrap() {
        LlvmType::Function(ret, params) => {
            assert!(matches!(*ret, LlvmType::Void));
            assert_eq!(params.len(), 1);
        }
        other => panic!("unexpected type {:?}", other),
    }
    let one = vec![Type::Scalar(ScalarType::U32)];
    match get_function_type(&one, Vec::new()).unwrap() {
        LlvmType::Function(ret, params) => {
            assert!(matches!(*ret, LlvmType::Int(32)));
            assert_eq!(params.len(), 0);
        }
        other => panic!("unexpected type {:?}", other),
    }
    let two = vec![Type::Scalar(ScalarType::U32), Type::Scalar(ScalarType::U32)];
    assert_eq!(
        get_function_type(&two, Vec::new()).unwrap_err(),
        TranslateError::Todo
    );
}

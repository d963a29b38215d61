//! The LLVM type and address-space mapper.
//!
//! PTX scalar, vector, array and pointer types map to a model of LLVM
//! types; state spaces map to the address-space integers the AMDGPU target
//! fixes. The mapping functions are pure and total up to the constructs
//! whose lowering is a known gap, which fail with a `Todo`-class error.

use vstd::prelude::*;
use crate::ast::{ScalarType, StateSpace, Type, types_equal};
use crate::error::TranslateError;

verus! {

/// The flat address space.
pub const GENERIC_ADDRESS_SPACE: u32 = 0;

/// Global memory.
pub const GLOBAL_ADDRESS_SPACE: u32 = 1;

/// Workgroup-shared memory.
pub const SHARED_ADDRESS_SPACE: u32 = 3;

/// Constant memory; kernel parameters live here.
pub const CONSTANT_ADDRESS_SPACE: u32 = 4;

/// Private (scratch) memory.
pub const PRIVATE_ADDRESS_SPACE: u32 = 5;

/// A model of an LLVM type: integer widths, the float family, vectors,
/// nested arrays, opaque pointers qualified by an address space, and
/// function types.
#[derive(Debug)]
pub enum LlvmType {
    Void,
    Int(u32),
    Half,
    BFloat,
    Float,
    Double,
    Vector(u32, Box<LlvmType>),
    Array(u64, Box<LlvmType>),
    Pointer(u32),
    Function(Box<LlvmType>, Vec<LlvmType>),
}

/// The LLVM type of a PTX scalar type; `None` for the packed-pair scalars,
/// whose mapping is a known gap.
pub open spec fn scalar_llvm_type(t: ScalarType) -> Option<LlvmType> {
    match t {
        ScalarType::Pred => Some(LlvmType::Int(1)),
        ScalarType::S8 | ScalarType::B8 | ScalarType::U8 => Some(LlvmType::Int(8)),
        ScalarType::B16 | ScalarType::U16 | ScalarType::S16 => Some(LlvmType::Int(16)),
        ScalarType::S32 | ScalarType::B32 | ScalarType::U32 => Some(LlvmType::Int(32)),
        ScalarType::U64 | ScalarType::S64 | ScalarType::B64 => Some(LlvmType::Int(64)),
        ScalarType::B128 => Some(LlvmType::Int(128)),
        ScalarType::F16 => Some(LlvmType::Half),
        ScalarType::F32 => Some(LlvmType::Float),
        ScalarType::F64 => Some(LlvmType::Double),
        ScalarType::BF16 => Some(LlvmType::BFloat),
        ScalarType::U16x2 | ScalarType::S16x2 | ScalarType::F16x2 | ScalarType::BF16x2 => None,
    }
}

/// The address-space integer of a PTX state space on the AMDGPU target.
/// `Param`, `ParamFunc`, `SharedCta` and `SharedCluster` are rejected: the
/// correct lowering is undecided.
pub open spec fn state_space_to_llvm(space: StateSpace) -> Result<u32, TranslateError> {
    match space {
        StateSpace::Reg => Ok(PRIVATE_ADDRESS_SPACE),
        StateSpace::Generic => Ok(GENERIC_ADDRESS_SPACE),
        StateSpace::Param => Err(TranslateError::Todo),
        StateSpace::ParamEntry => Ok(CONSTANT_ADDRESS_SPACE),
        StateSpace::ParamFunc => Err(TranslateError::Todo),
        StateSpace::Local => Ok(PRIVATE_ADDRESS_SPACE),
        StateSpace::Global => Ok(GLOBAL_ADDRESS_SPACE),
        StateSpace::Const => Ok(CONSTANT_ADDRESS_SPACE),
        StateSpace::Shared => Ok(SHARED_ADDRESS_SPACE),
        StateSpace::SharedCta => Err(TranslateError::Todo),
        StateSpace::SharedCluster => Err(TranslateError::Todo),
    }
}

/// Maps a state space to its address-space integer.
///
/// The returned integer matches `state_space_to_llvm` — the fixed AMDGPU
/// table — exactly, for every state space.
pub fn get_state_space(space: StateSpace) -> (r: Result<u32, TranslateError>)
    ensures
        r == state_space_to_llvm(space),
{
    match space {
        StateSpace::Reg => Ok(PRIVATE_ADDRESS_SPACE),
        StateSpace::Generic => Ok(GENERIC_ADDRESS_SPACE),
        StateSpace::Param => Err(TranslateError::Todo),
        StateSpace::ParamEntry => Ok(CONSTANT_ADDRESS_SPACE),
        StateSpace::ParamFunc => Err(TranslateError::Todo),
        StateSpace::Local => Ok(PRIVATE_ADDRESS_SPACE),
        StateSpace::Global => Ok(GLOBAL_ADDRESS_SPACE),
        StateSpace::Const => Ok(CONSTANT_ADDRESS_SPACE),
        StateSpace::Shared => Ok(SHARED_ADDRESS_SPACE),
        StateSpace::SharedCta => Err(TranslateError::Todo),
        StateSpace::SharedCluster => Err(TranslateError::Todo),
    }
}

/// Maps a PTX scalar type to its LLVM type.
pub fn get_scalar_type(t: ScalarType) -> (r: Result<LlvmType, TranslateError>)
    ensures
        r == match scalar_llvm_type(t) {
            Some(l) => Ok::<LlvmType, TranslateError>(l),
            None => Err::<LlvmType, TranslateError>(TranslateError::Todo),
        },
{
    match t {
        ScalarType::Pred => Ok(LlvmType::Int(1)),
        ScalarType::S8 | ScalarType::B8 | ScalarType::U8 => Ok(LlvmType::Int(8)),
        ScalarType::B16 | ScalarType::U16 | ScalarType::S16 => Ok(LlvmType::Int(16)),
        ScalarType::S32 | ScalarType::B32 | ScalarType::U32 => Ok(LlvmType::Int(32)),
        ScalarType::U64 | ScalarType::S64 | ScalarType::B64 => Ok(LlvmType::Int(64)),
        ScalarType::B128 => Ok(LlvmType::Int(128)),
        ScalarType::F16 => Ok(LlvmType::Half),
        ScalarType::F32 => Ok(LlvmType::Float),
        ScalarType::F64 => Ok(LlvmType::Double),
        ScalarType::BF16 => Ok(LlvmType::BFloat),
        ScalarType::U16x2 | ScalarType::S16x2 | ScalarType::F16x2 | ScalarType::BF16x2 => Err(
            TranslateError::Todo,
        ),
    }
}

/// Maps a state space to an opaque pointer type in its address space.
pub fn get_pointer_type(to_space: StateSpace) -> (r: Result<LlvmType, TranslateError>)
    ensures
        r == match state_space_to_llvm(to_space) {
            Ok(a) => Ok::<LlvmType, TranslateError>(LlvmType::Pointer(a)),
            Err(e) => Err::<LlvmType, TranslateError>(e),
        },
{
    match get_state_space(to_space) {
        Ok(a) => Ok(LlvmType::Pointer(a)),
        Err(e) => Err(e),
    }
}

/// The array element type of an array declaration: the scalar type,
/// optionally wrapped in a vector of the packed width.
pub open spec fn array_elem_rel(vec_width: Option<u8>, s: ScalarType, e: LlvmType) -> bool {
    match vec_width {
        None => scalar_llvm_type(s) == Some(e),
        Some(w) => e matches LlvmType::Vector(w2, b) && w2 == w as u32 && scalar_llvm_type(s)
            == Some(*b),
    }
}

/// Array dimensions apply right-to-left, innermost first: dimensions
/// `[a, b, c]` over element `T` produce `[a x [b x [c x T]]]`.
pub open spec fn llvm_array_rel(
    dims: Seq<u32>,
    vec_width: Option<u8>,
    s: ScalarType,
    r: LlvmType,
) -> bool
    decreases dims.len(),
{
    if dims.len() == 0 {
        array_elem_rel(vec_width, s, r)
    } else {
        r matches LlvmType::Array(n, inner) && n == dims[0] as u64 && llvm_array_rel(
            dims.skip(1),
            vec_width,
            s,
            *inner,
        )
    }
}

/// The LLVM type a PTX type maps to.
pub open spec fn llvm_type_rel(t: Type, r: LlvmType) -> bool {
    match t {
        Type::Scalar(s) => scalar_llvm_type(s) == Some(r),
        Type::Vector(n, s) => r matches LlvmType::Vector(w, e) && w == n as u32
            && scalar_llvm_type(s) == Some(*e),
        Type::Array(vec_width, s, dims) => {
            if dims@.len() == 0 {
                // An empty dimension list denotes a flexible, zero-length array.
                r matches LlvmType::Array(n, inner) && n == 0 && array_elem_rel(
                    vec_width,
                    s,
                    *inner,
                )
            } else {
                llvm_array_rel(dims@, vec_width, s, r)
            }
        },
        Type::Pointer(_, space) => state_space_to_llvm(space) matches Ok(a) && r
            == LlvmType::Pointer(a),
    }
}

/// Whether a PTX type has an LLVM mapping at all.
pub open spec fn llvm_type_ok(t: Type) -> bool {
    match t {
        Type::Scalar(s) => scalar_llvm_type(s) is Some,
        Type::Vector(_, s) => scalar_llvm_type(s) is Some,
        Type::Array(_, s, _) => scalar_llvm_type(s) is Some,
        Type::Pointer(_, space) => state_space_to_llvm(space) is Ok,
    }
}

/// The mapping respects structural type equality.
pub proof fn lemma_type_rel_respects_eq(a: Type, b: Type, l: LlvmType)
    requires
        types_equal(a, b),
    ensures
        llvm_type_rel(a, l) == llvm_type_rel(b, l),
        llvm_type_ok(a) == llvm_type_ok(b),
{
}

/// Maps a PTX type to its LLVM type.
pub fn get_type(t: &Type) -> (r: Result<LlvmType, TranslateError>)
    ensures
        r matches Ok(l) ==> llvm_type_rel(*t, l),
        (r matches Ok(_)) <==> llvm_type_ok(*t),
        r matches Err(e) ==> e == TranslateError::Todo,
{
    match t {
        Type::Scalar(s) => get_scalar_type(*s),
        Type::Vector(n, s) => {
            match get_scalar_type(*s) {
                Ok(base) => Ok(LlvmType::Vector(*n as u32, Box::new(base))),
                Err(e) => Err(e),
            }
        },
        Type::Array(vec_width, s, dims) => {
            let mut elem = match get_scalar_type(*s) {
                Ok(base) => base,
                Err(e) => {
                    return Err(e);
                },
            };
            if let Some(w) = vec_width {
                elem = LlvmType::Vector(*w as u32, Box::new(elem));
            }
            proof {
                assert(array_elem_rel(*vec_width, *s, elem));
            }
            if dims.len() == 0 {
                return Ok(LlvmType::Array(0, Box::new(elem)));
            }
            let mut acc = elem;
            let mut i: usize = dims.len();
            while i > 0
                invariant
                    *t == Type::Array(*vec_width, *s, *dims),
                    i <= dims@.len(),
                    llvm_array_rel(dims@.skip(i as int), *vec_width, *s, acc),
                decreases i,
            {
                i = i - 1;
                acc = LlvmType::Array(dims[i] as u64, Box::new(acc));
                proof {
                    assert(dims@.skip(i as int)[0] == dims@[i as int]);
                    assert(dims@.skip(i as int).skip(1) =~= dims@.skip(i as int + 1));
                }
            }
            proof {
                assert(dims@.skip(0) =~= dims@);
            }
            Ok(acc)
        },
        Type::Pointer(_, space) => {
            match get_pointer_type(*space) {
                Ok(p) => Ok(p),
                Err(_) => Err(TranslateError::Todo),
            }
        },
    }
}

/// The LLVM type of a method input argument: kernel parameters are
/// pointers into the constant address space, register parameters are
/// passed by value in their own type; anything else violates an invariant
/// of the earlier passes.
pub fn get_input_argument_type(v_type: &Type, state_space: StateSpace) -> (r: Result<
    LlvmType,
    TranslateError,
>)
    ensures
        match state_space {
            StateSpace::ParamEntry => r == Ok::<LlvmType, TranslateError>(
                LlvmType::Pointer(CONSTANT_ADDRESS_SPACE),
            ),
            StateSpace::Reg => {
                &&& (r matches Ok(l) ==> llvm_type_rel(*v_type, l))
                &&& ((r matches Ok(_)) <==> llvm_type_ok(*v_type))
                &&& (r matches Err(e) ==> e == TranslateError::Todo)
            },
            _ => r == Err::<LlvmType, TranslateError>(TranslateError::Unreachable),
        },
{
    match state_space {
        StateSpace::ParamEntry => Ok(LlvmType::Pointer(CONSTANT_ADDRESS_SPACE)),
        StateSpace::Reg => get_type(v_type),
        _ => Err(TranslateError::Unreachable),
    }
}

/// Builds an LLVM function type from declared return types and
/// already-mapped input types: no return argument is `void`, one is
/// carried directly, more than one is a known gap.
pub fn get_function_type(return_args: &Vec<Type>, input_args: Vec<LlvmType>) -> (r: Result<
    LlvmType,
    TranslateError,
>)
    ensures
        match r {
            Ok(f) => {
                &&& f matches LlvmType::Function(ret, params) && params == input_args && (
                if return_args@.len() == 0 {
                    *ret == LlvmType::Void
                } else {
                    return_args@.len() == 1 && llvm_type_rel(return_args@[0], *ret)
                })
            },
            Err(e) => e == TranslateError::Todo,
        },
        (r matches Ok(_)) <==> (return_args@.len() == 0 || (return_args@.len() == 1
            && llvm_type_ok(return_args@[0]))),
{
    let return_type = if return_args.len() == 0 {
        LlvmType::Void
    } else if return_args.len() == 1 {
        match get_type(&return_args[0]) {
            Ok(l) => l,
            Err(e) => {
                return Err(e);
            },
        }
    } else {
        return Err(TranslateError::Todo);
    };
    Ok(LlvmType::Function(Box::new(return_type), input_args))
}

} // verus!

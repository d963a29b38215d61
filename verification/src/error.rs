//! The single typed error channel of the translation core.

use vstd::prelude::*;

verus! {

/// Every pass reports failure through this type.
///
/// `UnknownSymbol` and `SymbolRedefinition` come out of name resolution;
/// `Todo` marks a construct whose lowering is a known gap; `Unreachable`
/// marks a violated internal invariant that earlier passes were supposed
/// to uphold.
#[derive(Clone, Copy, Debug, PartialEq, Eq, Structural)]
pub enum TranslateError {
    UnknownSymbol,
    SymbolRedefinition,
    Todo,
    Unreachable,
}

} // verus!

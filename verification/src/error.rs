//! Type-checking diagnostics.
//!
//! Every error is recoverable at the node that raised it: the engine
//! records the diagnostic, answers with an error-marked type, and keeps
//! checking the siblings and dependents of the node. Errors are
//! accumulated per item, never thrown across item boundaries.

use vstd::prelude::*;

use crate::model::{ExpressionRef, PatternRef};

verus! {

/// One type-checking diagnostic.
#[derive(Clone, Copy, Debug, PartialEq, Eq, Structural)]
pub enum Error {
    /// An identifier did not resolve to any declaration
    UnresolvedName {
        /// The identifier expression
        expression: ExpressionRef,
        /// The unresolved name
        name: u32,
    },
    /// A declaration's type depends on evaluating the declaration itself
    CyclicTypeDependency {
        /// The pattern whose typing re-entered itself
        pattern: PatternRef,
    },
    /// An `any`-typed declaration has no initialiser to infer from
    UninferrableAny {
        /// The declared pattern
        pattern: PatternRef,
    },
    /// More than one maximally specific overload matches a call
    AmbiguousOverload {
        /// The call expression
        expression: ExpressionRef,
        /// The overloaded name
        name: u32,
    },
    /// No overload of the name accepts the argument types
    NoMatchingOverload {
        /// The call expression
        expression: ExpressionRef,
        /// The overloaded name
        name: u32,
    },
    /// The shape of an expression does not fit its use: applying a
    /// non-function, indexing a non-array, a missing field, or a value
    /// whose type is not a subtype of what its position requires
    StructuralTypeMismatch {
        /// The offending expression
        expression: ExpressionRef,
    },
}

} // verus!

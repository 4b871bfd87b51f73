//! The arena-indexed model that typing runs over.
//!
//! A [`Model`] is a list of top-level items. Each item owns an
//! [`ItemData`] block: the arenas of declared-type nodes, expressions and
//! patterns that were lowered from its source text. Arena indices are
//! local to the item; [`PatternRef`] and [`ExpressionRef`] pair an index
//! with its item so results can be keyed across items.
//!
//! The arenas are lowered bottom-up: a composite node refers only to
//! nodes before it. [`ItemData::wf`] captures this; every traversal and
//! every typing recursion terminates because of it.

use vstd::prelude::*;

use crate::types::{types_wf, Type};

verus! {

/// Stable identity of a pattern: its item and the pattern's arena index
/// in that item.
#[derive(Clone, Copy, Debug, PartialEq, Eq, Hash, Structural)]
pub struct PatternRef {
    /// Index of the item in the model
    pub item: usize,
    /// Arena index of the pattern within the item
    pub pattern: usize,
}

/// Stable identity of an expression: its item and the expression's arena
/// index in that item.
#[derive(Clone, Copy, Debug, PartialEq, Eq, Hash, Structural)]
pub struct ExpressionRef {
    /// Index of the item in the model
    pub item: usize,
    /// Arena index of the expression within the item
    pub expression: usize,
}

/// A name-introducing pattern. Names are interned by the lowering stage;
/// an identifier is its index in [`Model::names`].
#[derive(Clone, Copy, Debug, PartialEq, Eq, Structural)]
pub enum Pattern {
    /// A name
    Identifier(u32),
    /// The wildcard pattern
    Anonymous,
    /// Sentinel for a pattern that failed to lower
    Missing,
}

/// An expression node. Only what typing reads is represented: the value
/// of a string or float literal stays with the lowering stage.
#[derive(Clone, Debug)]
pub enum Expression {
    /// Boolean literal
    BooleanLiteral(bool),
    /// Integer literal
    IntegerLiteral(i64),
    /// Float literal (the value does not matter to typing)
    FloatLiteral,
    /// String literal (the value does not matter to typing)
    StringLiteral,
    /// A name
    Identifier(u32),
    /// Function call
    Call {
        /// The callee expression
        function: usize,
        /// The argument expressions
        arguments: Vec<usize>,
    },
    /// Tuple literal
    TupleLiteral(Vec<usize>),
    /// Array literal
    ArrayLiteral(Vec<usize>),
    /// Set literal
    SetLiteral(Vec<usize>),
    /// Access to a tuple field by position (one-based)
    TupleAccess {
        /// The tuple expression
        tuple: usize,
        /// The one-based field number
        field: u32,
    },
    /// Access to an array element
    ArrayAccess {
        /// The array expression
        collection: usize,
        /// The index expression
        index: usize,
    },
    /// Sentinel for an expression that failed to lower
    Missing,
}

/// The expression nodes an expression refers to all lie below `bound` in
/// the arena.
pub open spec fn expr_children_below(e: Expression, bound: int) -> bool {
    match e {
        Expression::Call { function, arguments } => {
            &&& 0 <= function < bound
            &&& forall|i: int| 0 <= i < arguments@.len() ==> 0 <= #[trigger] arguments@[i] < bound
        },
        Expression::TupleLiteral(es) => forall|i: int|
            0 <= i < es@.len() ==> 0 <= #[trigger] es@[i] < bound,
        Expression::ArrayLiteral(es) => forall|i: int|
            0 <= i < es@.len() ==> 0 <= #[trigger] es@[i] < bound,
        Expression::SetLiteral(es) => forall|i: int|
            0 <= i < es@.len() ==> 0 <= #[trigger] es@[i] < bound,
        Expression::TupleAccess { tuple, .. } => 0 <= tuple < bound,
        Expression::ArrayAccess { collection, index } => 0 <= collection < bound && 0 <= index
            < bound,
        _ => true,
    }
}

/// Every expression of the arena refers only to earlier expressions.
pub open spec fn exprs_ordered(es: Seq<Expression>) -> bool {
    forall|i: int| 0 <= i < es.len() ==> expr_children_below(#[trigger] es[i], i)
}

/// The data block of one item: its arenas of declared-type nodes,
/// expressions and patterns.
#[derive(Clone, Debug)]
pub struct ItemData {
    /// Declared-type nodes
    pub types: Vec<Type>,
    /// Expression nodes
    pub expressions: Vec<Expression>,
    /// Patterns
    pub patterns: Vec<Pattern>,
}

impl ItemData {
    /// The arenas were lowered bottom-up and refer only within the item.
    pub open spec fn wf(&self) -> bool {
        &&& types_wf(
            self.types@,
            self.expressions@.len() as int,
            self.patterns@.len() as int,
        )
        &&& exprs_ordered(self.expressions@)
    }
}

/// One declared parameter of a function item.
#[derive(Clone, Copy, Debug, PartialEq, Eq, Structural)]
pub struct Parameter {
    /// Arena index of the parameter's declared type
    pub declared_type: usize,
    /// Arena index of the parameter's pattern
    pub pattern: usize,
}

/// What kind of top-level item this is, with its arena roots.
#[derive(Clone, Debug)]
pub enum ItemKind {
    /// A variable declaration, `t: x = e`
    Declaration {
        /// The declared type
        declared_type: usize,
        /// The declared name
        pattern: usize,
        /// The initialiser, if any
        definition: Option<usize>,
    },
    /// A constraint, `constraint e`
    Constraint {
        /// The constrained expression
        expression: usize,
    },
    /// An assignment, `x = e`
    Assignment {
        /// The assigned name
        assignee: usize,
        /// The assigned expression
        definition: usize,
    },
    /// An output item
    Output {
        /// The output expression
        expression: usize,
    },
    /// A function declaration
    Function {
        /// The declared name
        pattern: usize,
        /// The declared return type
        return_type: usize,
        /// The declared parameters
        parameters: Vec<Parameter>,
        /// The body, if any
        body: Option<usize>,
    },
}

/// A top-level item: its kind and its data block.
#[derive(Clone, Debug)]
pub struct Item {
    /// What the item is
    pub kind: ItemKind,
    /// The item's arenas
    pub data: ItemData,
}

impl Item {
    /// The kind's roots point into the item's own arenas.
    pub open spec fn kind_wf(&self) -> bool {
        match self.kind {
            ItemKind::Declaration { declared_type, pattern, definition } => {
                &&& declared_type < self.data.types@.len()
                &&& pattern < self.data.patterns@.len()
                &&& definition matches Some(d) ==> d < self.data.expressions@.len()
            },
            ItemKind::Constraint { expression } => expression < self.data.expressions@.len(),
            ItemKind::Assignment { assignee, definition } => {
                &&& assignee < self.data.expressions@.len()
                &&& definition < self.data.expressions@.len()
            },
            ItemKind::Output { expression } => expression < self.data.expressions@.len(),
            ItemKind::Function { pattern, return_type, parameters, body } => {
                &&& pattern < self.data.patterns@.len()
                &&& return_type < self.data.types@.len()
                &&& forall|i: int|
                    0 <= i < parameters@.len() ==> (#[trigger] parameters@[i]).declared_type
                        < self.data.types@.len() && parameters@[i].pattern
                        < self.data.patterns@.len()
                &&& body matches Some(b) ==> b < self.data.expressions@.len()
            },
        }
    }

    /// Arenas lowered bottom-up and roots in range.
    pub open spec fn wf(&self) -> bool {
        self.data.wf() && self.kind_wf()
    }

    /// Whether the item bears a signature: whether it can be referred to
    /// by an identifier. Assignments, constraints and outputs cannot.
    pub open spec fn spec_has_signature(&self) -> bool {
        match self.kind {
            ItemKind::Assignment { .. } => false,
            ItemKind::Constraint { .. } => false,
            ItemKind::Output { .. } => false,
            _ => true,
        }
    }

    /// Whether the item bears a signature.
    pub fn has_signature(&self) -> (r: bool)
        ensures
            r == self.spec_has_signature(),
    {
        match &self.kind {
            ItemKind::Assignment { .. } => false,
            ItemKind::Constraint { .. } => false,
            ItemKind::Output { .. } => false,
            _ => true,
        }
    }
}

/// A lowered model: the interned names and the top-level items.
#[derive(Clone, Debug)]
pub struct Model {
    /// The name table; identifiers index into it
    pub names: Vec<String>,
    /// The top-level items
    pub items: Vec<Item>,
}

impl Model {
    /// Every item is well-formed.
    pub open spec fn wf(&self) -> bool {
        forall|i: int| 0 <= i < self.items@.len() ==> (#[trigger] self.items@[i]).wf()
    }
}

} // verus!

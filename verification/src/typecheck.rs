//! Typing results for items.
//!
//! [`PatternTy`] is the computed kind and type of one name-introducing
//! pattern. The transient [`PatternTy::Computing`] marker is inserted
//! before a pattern's type is known and replaced once resolved; finding
//! it again on re-entry is the cycle signal that keeps typing of
//! self-referential declarations from diverging.
//!
//! [`TypeResult`] and [`TypeDiagnostics`] combine the computed types and
//! errors of one item's body with those of its signature (if it has one)
//! into one queryable view: lookups fall through body results to
//! signature results and answer absent only when neither holds an entry.

use vstd::prelude::*;

use crate::body::BodyTypes;
use crate::db::Db;
use crate::error::Error;
use crate::model::{ExpressionRef, ItemKind, PatternRef};
use crate::signature::SignatureTypes;
use crate::state::TypingState;
use crate::ty::{
    function_entry_eq, FunctionEntry, Ty, TyData,
};

verus! {

/// Constructor for an enum.
#[derive(Clone, Debug, PartialEq)]
pub struct EnumConstructorEntry {
    /// If true, this constructor is lifted and is not used for pattern
    /// matching
    pub is_lifted: bool,
    /// The function entry
    pub constructor: FunctionEntry,
}

/// Deep equality of enum constructor entries, stated over views.
pub open spec fn enum_constructor_entry_eq(a: EnumConstructorEntry, b: EnumConstructorEntry) -> bool {
    a.is_lifted == b.is_lifted && function_entry_eq(a.constructor, b.constructor)
}

impl EnumConstructorEntry {
    /// Copy this entry.
    pub fn duplicate(&self) -> (r: EnumConstructorEntry)
        ensures
            enum_constructor_entry_eq(r, *self),
    {
        EnumConstructorEntry { is_lifted: self.is_lifted, constructor: self.constructor.duplicate() }
    }
}

/// Type of a pattern (usually a declaration).
#[derive(Clone, Debug, PartialEq)]
pub enum PatternTy {
    /// Pattern is a variable declaration
    Variable(Ty),
    /// Pattern is a function declaration
    Function(FunctionEntry),
    /// Pattern is a function parameter
    Argument(Ty),
    /// Pattern is a type-inst variable declaration
    TyVar(u32),
    /// Pattern is a type-inst alias declaration
    TypeAlias {
        /// The type which is aliased
        ty: Ty,
        /// True if this type alias contains a bounded type
        has_bounded: bool,
        /// True if this type alias contains a primitive type
        has_unbounded: bool,
    },
    /// An enum declaration (type is of the defining set of the enum)
    Enum(Ty),
    /// Enum constructor: defines the constructor function of a case
    EnumConstructor(Vec<EnumConstructorEntry>),
    /// Anonymous enum constructor: kept although it cannot be called
    AnonymousEnumConstructor(FunctionEntry),
    /// Enum destructor: the inverse of a constructor
    EnumDestructure(Vec<FunctionEntry>),
    /// Enum atom
    EnumAtom(Ty),
    /// Annotation constructor
    AnnotationConstructor(FunctionEntry),
    /// Annotation destructor
    AnnotationDestructure(FunctionEntry),
    /// Annotation atom
    AnnotationAtom,
    /// Destructuring pattern
    Destructuring(Ty),
    /// Destructuring function call identifier
    DestructuringFn {
        /// The type of the constructor function
        constructor: Ty,
        /// The type of the destructor function
        destructor: Ty,
    },
    /// Currently computing: found again on re-entry, signals a cycle
    Computing,
}

/// Deep equality of pattern types, stated over views.
pub open spec fn pattern_ty_eq(a: PatternTy, b: PatternTy) -> bool {
    match (a, b) {
        (PatternTy::Variable(x), PatternTy::Variable(y)) => x == y,
        (PatternTy::Function(x), PatternTy::Function(y)) => function_entry_eq(x, y),
        (PatternTy::Argument(x), PatternTy::Argument(y)) => x == y,
        (PatternTy::TyVar(x), PatternTy::TyVar(y)) => x == y,
        (
            PatternTy::TypeAlias { ty: xt, has_bounded: xb, has_unbounded: xu },
            PatternTy::TypeAlias { ty: yt, has_bounded: yb, has_unbounded: yu },
        ) => xt == yt && xb == yb && xu == yu,
        (PatternTy::Enum(x), PatternTy::Enum(y)) => x == y,
        (PatternTy::EnumConstructor(xs), PatternTy::EnumConstructor(ys)) => {
            &&& xs@.len() == ys@.len()
            &&& forall|i: int|
                0 <= i < xs@.len() ==> enum_constructor_entry_eq(
                    #[trigger] xs@[i],
                    ys@[i],
                )
        },
        (PatternTy::AnonymousEnumConstructor(x), PatternTy::AnonymousEnumConstructor(y)) => {
            function_entry_eq(x, y)
        },
        (PatternTy::EnumDestructure(xs), PatternTy::EnumDestructure(ys)) => {
            &&& xs@.len() == ys@.len()
            &&& forall|i: int|
                0 <= i < xs@.len() ==> function_entry_eq(#[trigger] xs@[i], ys@[i])
        },
        (PatternTy::EnumAtom(x), PatternTy::EnumAtom(y)) => x == y,
        (PatternTy::AnnotationConstructor(x), PatternTy::AnnotationConstructor(y)) => {
            function_entry_eq(x, y)
        },
        (PatternTy::AnnotationDestructure(x), PatternTy::AnnotationDestructure(y)) => {
            function_entry_eq(x, y)
        },
        (PatternTy::AnnotationAtom, PatternTy::AnnotationAtom) => true,
        (PatternTy::Destructuring(x), PatternTy::Destructuring(y)) => x == y,
        (
            PatternTy::DestructuringFn { constructor: xc, destructor: xd },
            PatternTy::DestructuringFn { constructor: yc, destructor: yd },
        ) => xc == yc && xd == yd,
        (PatternTy::Computing, PatternTy::Computing) => true,
        _ => false,
    }
}

/// All type handles of an overload entry point into an arena of length
/// `n`.
pub open spec fn entry_below(c: FunctionEntry, n: int) -> bool {
    &&& c.overload.return_type.0 < n
    &&& forall|i: int| 0 <= i < c.overload.params@.len() ==> (#[trigger] c.overload.params@[i]).0 < n
}

/// All type handles of a pattern type point into an arena of length `n`.
pub open spec fn pattern_ty_below(p: PatternTy, n: int) -> bool {
    match p {
        PatternTy::Variable(t) => t.0 < n,
        PatternTy::Function(f) => entry_below(f, n),
        PatternTy::Argument(t) => t.0 < n,
        PatternTy::TyVar(_) => true,
        PatternTy::TypeAlias { ty, .. } => ty.0 < n,
        PatternTy::Enum(t) => t.0 < n,
        PatternTy::EnumConstructor(es) => forall|i: int|
            0 <= i < es@.len() ==> entry_below((#[trigger] es@[i]).constructor, n),
        PatternTy::AnonymousEnumConstructor(f) => entry_below(f, n),
        PatternTy::EnumDestructure(es) => forall|i: int|
            0 <= i < es@.len() ==> entry_below(#[trigger] es@[i], n),
        PatternTy::EnumAtom(t) => t.0 < n,
        PatternTy::AnnotationConstructor(f) => entry_below(f, n),
        PatternTy::AnnotationDestructure(f) => entry_below(f, n),
        PatternTy::AnnotationAtom => true,
        PatternTy::Destructuring(t) => t.0 < n,
        PatternTy::DestructuringFn { constructor, destructor } => constructor.0 < n
            && destructor.0 < n,
        PatternTy::Computing => true,
    }
}

/// Fitting below a shorter arena fits below a longer one.
pub proof fn lemma_pattern_ty_below_mono(p: PatternTy, n1: int, n2: int)
    requires
        pattern_ty_below(p, n1),
        n1 <= n2,
    ensures
        pattern_ty_below(p, n2),
{
    match p {
        PatternTy::EnumConstructor(es) => {
            assert forall|i: int| 0 <= i < es@.len() implies entry_below(
                (#[trigger] es@[i]).constructor,
                n2,
            ) by {
                assert(entry_below(es@[i].constructor, n1));
            }
        },
        PatternTy::EnumDestructure(es) => {
            assert forall|i: int| 0 <= i < es@.len() implies entry_below(#[trigger] es@[i], n2) by {
                assert(entry_below(es@[i], n1));
            }
        },
        _ => {},
    }
}

/// Deep equality preserves which arena lengths a pattern type fits in.
pub proof fn lemma_pattern_ty_eq_below(a: PatternTy, b: PatternTy, n: int)
    requires
        pattern_ty_eq(a, b),
        pattern_ty_below(b, n),
    ensures
        pattern_ty_below(a, n),
{
    match (a, b) {
        (PatternTy::EnumConstructor(xs), PatternTy::EnumConstructor(ys)) => {
            assert forall|i: int| 0 <= i < xs@.len() implies entry_below(
                (#[trigger] xs@[i]).constructor,
                n,
            ) by {
                assert(enum_constructor_entry_eq(xs@[i], ys@[i]));
                assert(entry_below(ys@[i].constructor, n));
            }
        },
        (PatternTy::EnumDestructure(xs), PatternTy::EnumDestructure(ys)) => {
            assert forall|i: int| 0 <= i < xs@.len() implies entry_below(#[trigger] xs@[i], n) by {
                assert(function_entry_eq(xs@[i], ys@[i]));
                assert(entry_below(ys@[i], n));
            }
        },
        _ => {},
    }
}

impl PatternTy {
    /// Copy this pattern type.
    pub fn duplicate(&self) -> (r: PatternTy)
        ensures
            pattern_ty_eq(r, *self),
    {
        match self {
            PatternTy::Variable(t) => PatternTy::Variable(*t),
            PatternTy::Function(f) => PatternTy::Function(f.duplicate()),
            PatternTy::Argument(t) => PatternTy::Argument(*t),
            PatternTy::TyVar(v) => PatternTy::TyVar(*v),
            PatternTy::TypeAlias { ty, has_bounded, has_unbounded } => {
                PatternTy::TypeAlias {
                    ty: *ty,
                    has_bounded: *has_bounded,
                    has_unbounded: *has_unbounded,
                }
            },
            PatternTy::Enum(t) => PatternTy::Enum(*t),
            PatternTy::EnumConstructor(es) => {
                let mut r: Vec<EnumConstructorEntry> = Vec::new();
                let mut i: usize = 0;
                while i < es.len()
                    invariant
                        i <= es@.len(),
                        r@.len() == i,
                        forall|j: int|
                            0 <= j < i ==> enum_constructor_entry_eq(
                                #[trigger] r@[j],
                                es@[j],
                            ),
                    decreases es@.len() - i,
                {
                    r.push(es[i].duplicate());
                    i = i + 1;
                }
                PatternTy::EnumConstructor(r)
            },
            PatternTy::AnonymousEnumConstructor(f) => {
                PatternTy::AnonymousEnumConstructor(f.duplicate())
            },
            PatternTy::EnumDestructure(es) => {
                let mut r: Vec<FunctionEntry> = Vec::new();
                let mut i: usize = 0;
                while i < es.len()
                    invariant
                        i <= es@.len(),
                        r@.len() == i,
                        forall|j: int|
                            0 <= j < i ==> function_entry_eq(#[trigger] r@[j], es@[j]),
                    decreases es@.len() - i,
                {
                    r.push(es[i].duplicate());
                    i = i + 1;
                }
                PatternTy::EnumDestructure(r)
            },
            PatternTy::EnumAtom(t) => PatternTy::EnumAtom(*t),
            PatternTy::AnnotationConstructor(f) => PatternTy::AnnotationConstructor(f.duplicate()),
            PatternTy::AnnotationDestructure(f) => PatternTy::AnnotationDestructure(f.duplicate()),
            PatternTy::AnnotationAtom => PatternTy::AnnotationAtom,
            PatternTy::Destructuring(t) => PatternTy::Destructuring(*t),
            PatternTy::DestructuringFn { constructor, destructor } => {
                PatternTy::DestructuringFn { constructor: *constructor, destructor: *destructor }
            },
            PatternTy::Computing => PatternTy::Computing,
        }
    }
}

/// Context for computation of types.
///
/// The typing engine calls these operations when computing types for
/// expressions; the signature and body contexts implement them over one
/// accumulated [`TypingState`] and differ in persistence key space and
/// recursion policy.
pub trait TypeContext: Sized {
    /// The typing state the context has accumulated.
    spec fn state(&self) -> TypingState;

    /// Add a declaration for a pattern.
    fn add_declaration(&mut self, pattern: PatternRef, declaration: PatternTy)
        requires
            old(self).state().inv(),
        ensures
            final(self).state().inv(),
            final(self).state().patterns@ == old(self).state().patterns@.insert(
                (pattern.item as int, pattern.pattern as int),
                declaration,
            ),
            final(self).state().expressions@ == old(self).state().expressions@,
            final(self).state().identifier_resolution@ == old(self).state().identifier_resolution@,
            final(self).state().pattern_resolution@ == old(self).state().pattern_resolution@,
            final(self).state().diagnostics@ == old(self).state().diagnostics@,
    ;

    /// Add a type for an expression.
    fn add_expression(&mut self, expression: ExpressionRef, ty: Ty)
        requires
            old(self).state().inv(),
        ensures
            final(self).state().inv(),
            final(self).state().expressions@ == old(self).state().expressions@.insert(
                (expression.item as int, expression.expression as int),
                ty,
            ),
            final(self).state().patterns@ == old(self).state().patterns@,
            final(self).state().identifier_resolution@ == old(self).state().identifier_resolution@,
            final(self).state().pattern_resolution@ == old(self).state().pattern_resolution@,
            final(self).state().diagnostics@ == old(self).state().diagnostics@,
    ;

    /// Add identifier resolution.
    fn add_identifier_resolution(&mut self, expression: ExpressionRef, resolution: PatternRef)
        requires
            old(self).state().inv(),
        ensures
            final(self).state().inv(),
            final(self).state().identifier_resolution@ == old(
                self,
            ).state().identifier_resolution@.insert(
                (expression.item as int, expression.expression as int),
                resolution,
            ),
            final(self).state().patterns@ == old(self).state().patterns@,
            final(self).state().expressions@ == old(self).state().expressions@,
            final(self).state().pattern_resolution@ == old(self).state().pattern_resolution@,
            final(self).state().diagnostics@ == old(self).state().diagnostics@,
    ;

    /// Add pattern resolution.
    fn add_pattern_resolution(&mut self, pattern: PatternRef, resolution: PatternRef)
        requires
            old(self).state().inv(),
        ensures
            final(self).state().inv(),
            final(self).state().pattern_resolution@ == old(
                self,
            ).state().pattern_resolution@.insert(
                (pattern.item as int, pattern.pattern as int),
                resolution,
            ),
            final(self).state().patterns@ == old(self).state().patterns@,
            final(self).state().expressions@ == old(self).state().expressions@,
            final(self).state().identifier_resolution@ == old(self).state().identifier_resolution@,
            final(self).state().diagnostics@ == old(self).state().diagnostics@,
    ;

    /// Add an error.
    fn add_diagnostic(&mut self, item: usize, e: Error)
        requires
            old(self).state().inv(),
        ensures
            final(self).state().inv(),
            final(self).state().diagnostics@ == old(self).state().diagnostics@.push(e),
            final(self).state().patterns@ == old(self).state().patterns@,
            final(self).state().expressions@ == old(self).state().expressions@,
            final(self).state().identifier_resolution@ == old(self).state().identifier_resolution@,
            final(self).state().pattern_resolution@ == old(self).state().pattern_resolution@,
    ;

    /// Type a pattern (or look the type up if already known).
    fn type_pattern(&mut self, db: &mut Db, pattern: PatternRef) -> (r: PatternTy)
        requires
            old(db).wf(),
            old(self).state().inv(),
            old(self).state().below(old(db).interner@.len() as int),
            (pattern.item as int) < old(db).model.items@.len(),
            (pattern.pattern as int)
                < old(db).model.items@[pattern.item as int].data.patterns@.len(),
        ensures
            final(db).wf(),
            final(db).model == old(db).model,
            final(db).registry == old(db).registry,
            old(db).interner@.is_prefix_of(final(db).interner@),
            final(self).state().inv(),
            final(self).state().below(final(db).interner@.len() as int),
            pattern_ty_below(r, final(db).interner@.len() as int),
    ;
}

impl TypeContext for crate::signature::SignatureTypeContext {
    open spec fn state(&self) -> TypingState {
        self.state
    }

    fn add_declaration(&mut self, pattern: PatternRef, declaration: PatternTy) {
        self.state.patterns.insert(pattern.item, pattern.pattern, declaration);
    }

    fn add_expression(&mut self, expression: ExpressionRef, ty: Ty) {
        self.state.expressions.insert(expression.item, expression.expression, ty);
    }

    fn add_identifier_resolution(&mut self, expression: ExpressionRef, resolution: PatternRef) {
        self.state.identifier_resolution.insert(
            expression.item,
            expression.expression,
            resolution,
        );
    }

    fn add_pattern_resolution(&mut self, pattern: PatternRef, resolution: PatternRef) {
        self.state.pattern_resolution.insert(pattern.item, pattern.pattern, resolution);
    }

    fn add_diagnostic(&mut self, item: usize, e: Error) {
        let _ = item;
        self.state.diagnostics.push(e);
    }

    fn type_pattern(&mut self, db: &mut Db, pattern: PatternRef) -> (r: PatternTy) {
        proof {
            crate::typer::lemma_prefix_refl(db.interner@);
        }
        let fuel = db.recursion_budget();
        if fuel == 0 {
            return PatternTy::Variable(db.registry.error);
        }
        crate::typer::type_pattern_ref(
            db,
            &mut self.state,
            crate::typer::TypingMode::Signature,
            pattern,
            fuel - 1,
        )
    }
}

impl TypeContext for crate::body::BodyTypeContext {
    open spec fn state(&self) -> TypingState {
        self.state
    }

    fn add_declaration(&mut self, pattern: PatternRef, declaration: PatternTy) {
        self.state.patterns.insert(pattern.item, pattern.pattern, declaration);
    }

    fn add_expression(&mut self, expression: ExpressionRef, ty: Ty) {
        self.state.expressions.insert(expression.item, expression.expression, ty);
    }

    fn add_identifier_resolution(&mut self, expression: ExpressionRef, resolution: PatternRef) {
        self.state.identifier_resolution.insert(
            expression.item,
            expression.expression,
            resolution,
        );
    }

    fn add_pattern_resolution(&mut self, pattern: PatternRef, resolution: PatternRef) {
        self.state.pattern_resolution.insert(pattern.item, pattern.pattern, resolution);
    }

    fn add_diagnostic(&mut self, item: usize, e: Error) {
        let _ = item;
        self.state.diagnostics.push(e);
    }

    fn type_pattern(&mut self, db: &mut Db, pattern: PatternRef) -> (r: PatternTy) {
        proof {
            crate::typer::lemma_prefix_refl(db.interner@);
        }
        let fuel = db.recursion_budget();
        if fuel == 0 {
            return PatternTy::Variable(db.registry.error);
        }
        crate::typer::type_pattern_ref(
            db,
            &mut self.state,
            crate::typer::TypingMode::Body,
            pattern,
            fuel - 1,
        )
    }
}

/// Collected types for an item: the computed types for its body
/// combined with those of its signature, if it has one.
#[derive(Debug)]
pub struct TypeResult {
    /// The item the results were computed for
    pub item: usize,
    /// The body results
    pub body: BodyTypes,
    /// The signature results, for signature-bearing items
    pub signature: Option<SignatureTypes>,
}

impl TypeResult {
    /// The maps hold each key at most once.
    pub open spec fn inv(&self) -> bool {
        &&& self.body.inv()
        &&& (self.signature matches Some(s) ==> s.inv())
    }

    /// What a pattern lookup answers: the body entry if one exists, the
    /// signature entry otherwise, absence only when neither holds one.
    pub open spec fn spec_get_pattern(&self, p: int) -> Option<PatternTy> {
        let k = (self.item as int, p);
        if self.body.patterns@.contains_key(k) {
            Some(self.body.patterns@[k])
        } else {
            match self.signature {
                Some(s) => if s.patterns@.contains_key(k) {
                    Some(s.patterns@[k])
                } else {
                    None
                },
                None => None,
            }
        }
    }

    /// What an expression lookup answers, with the same fallback.
    pub open spec fn spec_get_expression(&self, e: int) -> Option<Ty> {
        let k = (self.item as int, e);
        if self.body.expressions@.contains_key(k) {
            Some(self.body.expressions@[k])
        } else {
            match self.signature {
                Some(s) => if s.expressions@.contains_key(k) {
                    Some(s.expressions@[k])
                } else {
                    None
                },
                None => None,
            }
        }
    }

    /// What a name-resolution lookup answers, with the same fallback.
    pub open spec fn spec_name_resolution(&self, e: int) -> Option<PatternRef> {
        let k = (self.item as int, e);
        if self.body.identifier_resolution@.contains_key(k) {
            Some(self.body.identifier_resolution@[k])
        } else {
            match self.signature {
                Some(s) => if s.identifier_resolution@.contains_key(k) {
                    Some(s.identifier_resolution@[k])
                } else {
                    None
                },
                None => None,
            }
        }
    }

    /// What a pattern-resolution lookup answers, with the same fallback.
    pub open spec fn spec_pattern_resolution(&self, p: int) -> Option<PatternRef> {
        let k = (self.item as int, p);
        if self.body.pattern_resolution@.contains_key(k) {
            Some(self.body.pattern_resolution@[k])
        } else {
            match self.signature {
                Some(s) => if s.pattern_resolution@.contains_key(k) {
                    Some(s.pattern_resolution@[k])
                } else {
                    None
                },
                None => None,
            }
        }
    }

    /// Get the computed types for this item: its body results, combined
    /// with its signature results when the item bears a signature.
    pub fn new(db: &mut Db, item: usize) -> (r: TypeResult)
        requires
            old(db).wf(),
            (item as int) < old(db).model.items@.len(),
        ensures
            final(db).wf(),
            final(db).model == old(db).model,
            final(db).registry == old(db).registry,
            r.inv(),
            r.item == item,
            (r.signature is Some) == old(db).model.items@[item as int].spec_has_signature(),
            crate::typer::body_maps_ok(
                old(db).model,
                item as int,
                old(db).registry,
                r.body.expressions@,
                r.body.identifier_resolution@,
            ),
            r.signature matches Some(s) ==> crate::typer::signature_maps_ok(
                old(db).model,
                item as int,
                final(db).interner@,
                old(db).registry,
                s.patterns@,
                s.expressions@,
            ),
    {
        let (body, _) = crate::typer::collect_item_body(db, item);
        let signature: Option<SignatureTypes> = if db.model.items[item].has_signature() {
            let (s, _) = crate::typer::collect_item_signature(db, item);
            Some(s)
        } else {
            None
        };
        TypeResult { item, body, signature }
    }

    /// Get the pattern this identifier expression resolves to.
    pub fn name_resolution(&self, index: usize) -> (r: Option<PatternRef>)
        requires
            self.inv(),
        ensures
            r == self.spec_name_resolution(index as int),
    {
        if let Some(p) = self.body.identifier_resolution.get(self.item, index) {
            return Some(*p);
        }
        if let Some(s) = &self.signature {
            if let Some(p) = s.identifier_resolution.get(self.item, index) {
                return Some(*p);
            }
        }
        None
    }

    /// Get the pattern this pattern resolves to.
    pub fn pattern_resolution(&self, index: usize) -> (r: Option<PatternRef>)
        requires
            self.inv(),
        ensures
            r == self.spec_pattern_resolution(index as int),
    {
        if let Some(p) = self.body.pattern_resolution.get(self.item, index) {
            return Some(*p);
        }
        if let Some(s) = &self.signature {
            if let Some(p) = s.pattern_resolution.get(self.item, index) {
                return Some(*p);
            }
        }
        None
    }

    /// Get the declaration for a pattern: the body entry if one exists,
    /// the signature entry otherwise, absent only when neither holds
    /// one.
    pub fn get_pattern(&self, pattern: usize) -> (r: Option<&PatternTy>)
        requires
            self.inv(),
        ensures
            match r {
                Some(v) => self.spec_get_pattern(pattern as int) == Some(*v),
                None => self.spec_get_pattern(pattern as int) is None,
            },
    {
        if let Some(v) = self.body.patterns.get(self.item, pattern) {
            return Some(v);
        }
        if let Some(s) = &self.signature {
            if let Some(v) = s.patterns.get(self.item, pattern) {
                return Some(v);
            }
        }
        None
    }

    /// Get the type of an expression, with the same fallback.
    pub fn get_expression(&self, expression: usize) -> (r: Option<Ty>)
        requires
            self.inv(),
        ensures
            r == self.spec_get_expression(expression as int),
    {
        if let Some(t) = self.body.expressions.get(self.item, expression) {
            return Some(*t);
        }
        if let Some(s) = &self.signature {
            if let Some(t) = s.expressions.get(self.item, expression) {
                return Some(*t);
            }
        }
        None
    }
}

/// Copy a list of diagnostics.
pub fn copy_errors(v: &Vec<Error>) -> (r: Vec<Error>)
    ensures
        r@ == v@,
{
    let mut r: Vec<Error> = Vec::new();
    let mut i: usize = 0;
    while i < v.len()
        invariant
            i <= v@.len(),
            r@ == v@.take(i as int),
        decreases v@.len() - i,
    {
        r.push(v[i]);
        proof {
            assert(r@ =~= v@.take(i + 1 as int));
        }
        i = i + 1;
    }
    proof {
        assert(r@ =~= v@);
    }
    r
}

/// Diagnostics collected when typing an item: the signature errors (for
/// signature-bearing items) and the body errors, kept apart so a caller
/// can tell a broken public shape from a broken private body.
#[derive(Debug)]
pub struct TypeDiagnostics(pub Vec<Error>, pub Option<Vec<Error>>);

impl TypeDiagnostics {
    /// Get the diagnostics for type-checking an item. Assignment,
    /// constraint and output items have only body errors; all other
    /// items carry their signature errors first.
    pub fn new(db: &mut Db, item: usize) -> (r: TypeDiagnostics)
        requires
            old(db).wf(),
            (item as int) < old(db).model.items@.len(),
        ensures
            final(db).wf(),
            final(db).model == old(db).model,
            final(db).registry == old(db).registry,
            (r.1 is Some) == old(db).model.items@[item as int].spec_has_signature(),
            old(db).model.items@[item as int].spec_has_signature()
                ==> crate::typer::signature_errors_ok(old(db).model, item as int, r.0@) && (r.1
                matches Some(b) ==> crate::typer::body_literal_errors_ok(
                old(db).model,
                item as int,
                b@,
            )),
            !old(db).model.items@[item as int].spec_has_signature()
                ==> crate::typer::body_literal_errors_ok(old(db).model, item as int, r.0@),
    {
        if db.model.items[item].has_signature() {
            let (_, se) = crate::typer::collect_item_signature(db, item);
            let (_, be) = crate::typer::collect_item_body(db, item);
            TypeDiagnostics(se, Some(be))
        } else {
            let (_, be) = crate::typer::collect_item_body(db, item);
            TypeDiagnostics(be, None)
        }
    }

    /// The diagnostic lists themselves, outermost first.
    pub fn outer_iter(&self) -> (r: Vec<Vec<Error>>)
        ensures
            self.1 is None ==> r@.len() == 1 && r@[0]@ == self.0@,
            self.1 matches Some(b) ==> r@.len() == 2 && r@[0]@ == self.0@ && r@[1]@ == b@,
    {
        let mut r: Vec<Vec<Error>> = Vec::new();
        r.push(copy_errors(&self.0));
        if let Some(b) = &self.1 {
            r.push(copy_errors(b));
        }
        r
    }

    /// All diagnostics, declaration diagnostics before body diagnostics.
    pub fn iter(&self) -> (r: Vec<Error>)
        ensures
            self.1 is None ==> r@ == self.0@,
            self.1 matches Some(b) ==> r@ == self.0@ + b@,
    {
        let mut r = copy_errors(&self.0);
        if let Some(b) = &self.1 {
            let mut more = copy_errors(b);
            proof {
                assert((r@ + more@) == (self.0@ + b@));
            }
            r.append(&mut more);
        }
        r
    }
}

} // verus!

//! Body typing.
//!
//! A body is the set of expressions of a top-level item that cannot be
//! referred to by name: initialisers, constraint and output expressions,
//! function bodies. Typing a body may read the cached *signatures* of
//! other items freely — bodies are never referenced by name, so no body
//! ever needs another body, and no cycle through the cache can arise.
//! Body results are local to the one item being typed; every key they
//! store carries that item.

use vstd::prelude::*;

use crate::db::Db;
use crate::error::Error;
use crate::model::{ExpressionRef, ItemKind, PatternRef};
use crate::state::{RefMap, TypingState};
use crate::ty::Ty;
use crate::typecheck::{pattern_ty_below, PatternTy};
use crate::ty::spec_subtype;
use crate::typer::{
    body_errors_ok, body_maps_ok, lemma_post_trans, lemma_prefix_refl, record_diagnostic,
    type_expression, type_pattern_ref, TypingMode,
};

verus! {

/// The frozen body results of one item's computation.
#[derive(Debug)]
pub struct BodyTypes {
    /// Computed pattern types of the item
    pub patterns: RefMap<PatternTy>,
    /// Computed expression types of the item
    pub expressions: RefMap<Ty>,
    /// Resolution of identifier expressions to declaring patterns
    pub identifier_resolution: RefMap<PatternRef>,
    /// Resolution of patterns to declaring patterns
    pub pattern_resolution: RefMap<PatternRef>,
}

impl BodyTypes {
    /// All maps hold each key at most once.
    pub open spec fn inv(&self) -> bool {
        &&& self.patterns.inv()
        &&& self.expressions.inv()
        &&& self.identifier_resolution.inv()
        &&& self.pattern_resolution.inv()
    }

    /// Every stored type handle points into an arena of length `n`.
    pub open spec fn below(&self, n: int) -> bool {
        &&& forall|k: (int, int)|
            self.patterns@.contains_key(k) ==> pattern_ty_below(#[trigger] self.patterns@[k], n)
        &&& forall|k: (int, int)|
            self.expressions@.contains_key(k) ==> (#[trigger] self.expressions@[k]).0 < n
    }

    /// Freeze a finished typing state into body results.
    pub fn from_state(st: TypingState) -> (r: (BodyTypes, Vec<crate::error::Error>))
        requires
            st.inv(),
        ensures
            r.0.inv(),
            r.0.patterns@ == st.patterns@,
            r.0.expressions@ == st.expressions@,
            r.0.identifier_resolution@ == st.identifier_resolution@,
            r.0.pattern_resolution@ == st.pattern_resolution@,
            r.1@ == st.diagnostics@,
            forall|n: int| st.below(n) ==> r.0.below(n),
    {
        let TypingState {
            item: _,
            patterns,
            expressions,
            identifier_resolution,
            pattern_resolution,
            diagnostics,
        } = st;
        (
            BodyTypes { patterns, expressions, identifier_resolution, pattern_resolution },
            diagnostics,
        )
    }
}

/// Context for typing the body of one item.
///
/// Wraps the typing state with the body-mode policies: results are
/// local to the item, and pattern lookups go to the cached signatures.
#[derive(Debug)]
pub struct BodyTypeContext {
    /// The accumulated typing state
    pub state: TypingState,
}

impl BodyTypeContext {
    /// A fresh context for one item.
    pub fn new(item: usize) -> (r: BodyTypeContext)
        ensures
            r.state.inv(),
            r.state.item == item,
            r.state.diagnostics@.len() == 0,
            forall|n: int| r.state.below(n),
    {
        let r = BodyTypeContext { state: TypingState::new(item) };
        proof {
            assert forall|n: int| r.state.below(n) by {
                assert(forall|k: (int, int)| !r.state.patterns@.contains_key(k));
                assert(forall|k: (int, int)| !r.state.expressions@.contains_key(k));
            }
        }
        r
    }

    /// Type-check the item's body expressions against what their
    /// positions require.
    pub fn type_item(&mut self, db: &mut Db)
        requires
            old(db).wf(),
            (old(self).state.item as int) < old(db).model.items@.len(),
            old(self).state.inv(),
            old(self).state.below(old(db).interner@.len() as int),
        ensures
            final(db).wf(),
            final(db).model == old(db).model,
            final(db).registry == old(db).registry,
            old(db).interner@.is_prefix_of(final(db).interner@),
            final(self).state.inv(),
            final(self).state.below(final(db).interner@.len() as int),
            body_maps_ok(
                old(db).model,
                old(self).state.item as int,
                old(db).registry,
                final(self).state.expressions@,
                final(self).state.identifier_resolution@,
            ),
            old(self).state.diagnostics@.len() == 0 ==> body_errors_ok(
                old(db).model,
                old(self).state.item as int,
                final(db).interner@,
                old(db).registry,
                final(self).state.expressions@,
                final(self).state.diagnostics@,
            ),
    {
        let item = self.state.item;
        let fuel = db.recursion_budget();
        let ghost db0 = *db;
        let ghost st0 = self.state;
        proof {
            lemma_prefix_refl(db.interner@);
            lemma_prefix_refl(self.state.diagnostics@);
            assert(db.model.items@[item as int].wf());
        }
        if fuel == 0 {
            return ;
        }
        match &db.model.items[item].kind {
            ItemKind::Declaration { pattern, definition, .. } => {
                let pat = *pattern;
                let def = *definition;
                if let Some(de) = def {
                    let pt = type_pattern_ref(
                        db,
                        &mut self.state,
                        TypingMode::Body,
                        PatternRef { item, pattern: pat },
                        fuel - 1,
                    );
                    let dt: Ty = match pt {
                        PatternTy::Variable(t2) => t2,
                        _ => db.registry.error,
                    };
                    let ghost db1 = *db;
                    let ghost st1 = self.state;
                    let et = type_expression(db, &mut self.state, TypingMode::Body, item, de, fuel - 1);
                    proof {
                        lemma_post_trans(db0, db1, *db, st0, st1, self.state);
                    }
                    if !db.interner.is_subtype(et, dt) {
                        record_diagnostic(
                            &mut self.state,
                            Error::StructuralTypeMismatch {
                                expression: ExpressionRef { item, expression: de },
                            },
                        );
                    }
                }
            },
            ItemKind::Constraint { expression } => {
                let ex = *expression;
                let t = type_expression(db, &mut self.state, TypingMode::Body, item, ex, fuel - 1);
                proof {
                    let node = db0.model.items@[item as int].data.expressions@[ex as int];
                    if node is BooleanLiteral {
                        assert(spec_subtype(
                            db.interner@,
                            db.registry.par_bool.0 as int,
                            db.registry.var_bool.0 as int,
                        ));
                    }
                    if node is IntegerLiteral {
                        assert(!spec_subtype(
                            db.interner@,
                            db.registry.par_int.0 as int,
                            db.registry.var_bool.0 as int,
                        ));
                    }
                }
                if !db.interner.is_subtype(t, db.registry.var_bool) {
                    record_diagnostic(
                        &mut self.state,
                        Error::StructuralTypeMismatch {
                            expression: ExpressionRef { item, expression: ex },
                        },
                    );
                    proof {
                        let node = db0.model.items@[item as int].data.expressions@[ex as int];
                        if node is IntegerLiteral && st0.diagnostics@.len() == 0 {
                            assert(self.state.diagnostics@ =~= seq![
                                Error::StructuralTypeMismatch {
                                    expression: ExpressionRef { item, expression: ex },
                                },
                            ]);
                        }
                        assert(self.state.diagnostics@.last() == (Error::StructuralTypeMismatch {
                            expression: ExpressionRef { item, expression: ex },
                        }));
                        assert(self.state.diagnostics@.contains(
                            Error::StructuralTypeMismatch {
                                expression: ExpressionRef { item, expression: ex },
                            },
                        ));
                    }
                }
            },
            ItemKind::Assignment { assignee, definition } => {
                let a_idx = *assignee;
                let d_idx = *definition;
                let at = type_expression(db, &mut self.state, TypingMode::Body, item, a_idx, fuel - 1);
                let ghost db1 = *db;
                let ghost st1 = self.state;
                let dt = type_expression(db, &mut self.state, TypingMode::Body, item, d_idx, fuel - 1);
                proof {
                    lemma_post_trans(db0, db1, *db, st0, st1, self.state);
                }
                if !db.interner.is_subtype(dt, at) {
                    record_diagnostic(
                        &mut self.state,
                        Error::StructuralTypeMismatch {
                            expression: ExpressionRef { item, expression: d_idx },
                        },
                    );
                }
            },
            ItemKind::Output { expression } => {
                let ex = *expression;
                let t = type_expression(db, &mut self.state, TypingMode::Body, item, ex, fuel - 1);
                let ok = db.interner.is_subtype(t, db.registry.string) || db.interner.is_subtype(
                    t,
                    db.registry.array_of_string,
                );
                if !ok {
                    record_diagnostic(
                        &mut self.state,
                        Error::StructuralTypeMismatch {
                            expression: ExpressionRef { item, expression: ex },
                        },
                    );
                    proof {
                        assert(self.state.diagnostics@.last() == (Error::StructuralTypeMismatch {
                            expression: ExpressionRef { item, expression: ex },
                        }));
                        assert(self.state.diagnostics@.contains(
                            Error::StructuralTypeMismatch {
                                expression: ExpressionRef { item, expression: ex },
                            },
                        ));
                    }
                }
            },
            ItemKind::Function { pattern, body, .. } => {
                let pat = *pattern;
                let bd = *body;
                if let Some(b) = bd {
                    let pt = type_pattern_ref(
                        db,
                        &mut self.state,
                        TypingMode::Body,
                        PatternRef { item, pattern: pat },
                        fuel - 1,
                    );
                    let rt: Ty = match pt {
                        PatternTy::Function(fe) => fe.overload.return_type,
                        _ => db.registry.error,
                    };
                    let ghost db1 = *db;
                    let ghost st1 = self.state;
                    let bt = type_expression(db, &mut self.state, TypingMode::Body, item, b, fuel - 1);
                    proof {
                        lemma_post_trans(db0, db1, *db, st0, st1, self.state);
                    }
                    if !db.interner.is_subtype(bt, rt) {
                        record_diagnostic(
                            &mut self.state,
                            Error::StructuralTypeMismatch {
                                expression: ExpressionRef { item, expression: b },
                            },
                        );
                    }
                }
            },
        }
    }

    /// Freeze the accumulated results.
    pub fn finish(self) -> (r: (BodyTypes, Vec<crate::error::Error>))
        requires
            self.state.inv(),
        ensures
            r.0.inv(),
            forall|n: int| self.state.below(n) ==> r.0.below(n),
            r.0.patterns@ == self.state.patterns@,
            r.0.expressions@ == self.state.expressions@,
            r.0.identifier_resolution@ == self.state.identifier_resolution@,
            r.0.pattern_resolution@ == self.state.pattern_resolution@,
            r.1@ == self.state.diagnostics@,
    {
        BodyTypes::from_state(self.state)
    }
}

} // verus!

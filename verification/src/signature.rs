//! Signature typing.
//!
//! A signature is the externally referable type of a top-level item:
//! what an identifier referring to the item means, ignoring the item's
//! initialiser except for `any` declarations. Signature results are
//! keyed by (item, arena index) pairs because typing one item's
//! signature types the signatures of its dependencies locally too —
//! they are always recomputed, never fetched from the database cache,
//! so no query cycle through the cache can arise; the accepted cost is
//! bounded redundant recomputation, never correctness.

use vstd::prelude::*;

use crate::db::Db;
use crate::model::{ItemKind, PatternRef};
use crate::state::{RefMap, TypingState};
use crate::ty::Ty;
use crate::typecheck::{pattern_ty_below, PatternTy};
use crate::typer::{type_pattern_ref, TypingMode};

verus! {

/// The frozen signature results of one item's computation.
#[derive(Debug)]
pub struct SignatureTypes {
    /// Computed pattern types, keyed across items
    pub patterns: RefMap<PatternTy>,
    /// Computed expression types, keyed across items
    pub expressions: RefMap<Ty>,
    /// Resolution of identifier expressions to declaring patterns
    pub identifier_resolution: RefMap<PatternRef>,
    /// Resolution of patterns to declaring patterns
    pub pattern_resolution: RefMap<PatternRef>,
}

impl SignatureTypes {
    /// All maps hold each key at most once.
    pub open spec fn inv(&self) -> bool {
        &&& self.patterns.inv()
        &&& self.expressions.inv()
        &&& self.identifier_resolution.inv()
        &&& self.pattern_resolution.inv()
    }

    /// Every stored type handle points into an arena of length `n`.
    pub open spec fn below(&self, n: int) -> bool {
        &&& forall|k: (int, int)|
            self.patterns@.contains_key(k) ==> pattern_ty_below(#[trigger] self.patterns@[k], n)
        &&& forall|k: (int, int)|
            self.expressions@.contains_key(k) ==> (#[trigger] self.expressions@[k]).0 < n
    }

    /// Freeze a finished typing state into signature results.
    pub fn from_state(st: TypingState) -> (r: (SignatureTypes, Vec<crate::error::Error>))
        requires
            st.inv(),
        ensures
            r.0.inv(),
            r.0.patterns@ == st.patterns@,
            r.0.expressions@ == st.expressions@,
            r.0.identifier_resolution@ == st.identifier_resolution@,
            r.0.pattern_resolution@ == st.pattern_resolution@,
            r.1@ == st.diagnostics@,
            forall|n: int| st.below(n) ==> r.0.below(n),
    {
        let TypingState {
            item: _,
            patterns,
            expressions,
            identifier_resolution,
            pattern_resolution,
            diagnostics,
        } = st;
        (
            SignatureTypes { patterns, expressions, identifier_resolution, pattern_resolution },
            diagnostics,
        )
    }
}

/// Context for typing signatures.
///
/// Wraps the typing state with the signature-mode policies: results are
/// keyed across items, and dependency signatures are recomputed locally
/// under the `Computing` cycle guard, never fetched from the cache.
#[derive(Debug)]
pub struct SignatureTypeContext {
    /// The accumulated typing state
    pub state: TypingState,
}

impl SignatureTypeContext {
    /// A fresh context for one item.
    pub fn new(item: usize) -> (r: SignatureTypeContext)
        ensures
            r.state.inv(),
            r.state.item == item,
            r.state.diagnostics@.len() == 0,
            forall|n: int| r.state.below(n),
    {
        let r = SignatureTypeContext { state: TypingState::new(item) };
        proof {
            assert forall|n: int| r.state.below(n) by {
                assert(forall|k: (int, int)| !r.state.patterns@.contains_key(k));
                assert(forall|k: (int, int)| !r.state.expressions@.contains_key(k));
            }
        }
        r
    }

    /// Type the signature of an item into this context.
    pub fn type_item(&mut self, db: &mut Db, item: usize)
        requires
            old(db).wf(),
            (item as int) < old(db).model.items@.len(),
            old(self).state.inv(),
            old(self).state.below(old(db).interner@.len() as int),
        ensures
            final(db).wf(),
            final(db).model == old(db).model,
            final(db).registry == old(db).registry,
            old(db).interner@.is_prefix_of(final(db).interner@),
            crate::typer::cache_frame(*old(db), *final(db)),
            final(self).state.inv(),
            final(self).state.below(final(db).interner@.len() as int),
            old(self).state.patterns@ == Map::<(int, int), PatternTy>::empty() && old(self).state.diagnostics@.len() == 0 ==> crate::typer::signature_maps_ok(
                old(db).model,
                item as int,
                final(db).interner@,
                old(db).registry,
                final(self).state.patterns@,
                final(self).state.expressions@,
            ) && crate::typer::signature_errors_ok(
                old(db).model,
                item as int,
                final(self).state.diagnostics@,
            ),
            crate::typer::no_new_computing(old(self).state, final(self).state),
    {
        let ghost db0 = *db;
        proof {
            crate::typer::lemma_prefix_refl(db.interner@);
        }
        let main: Option<usize> = match &db.model.items[item].kind {
            ItemKind::Declaration { pattern, .. } => Some(*pattern),
            ItemKind::Function { pattern, .. } => Some(*pattern),
            _ => None,
        };
        if let Some(pat) = main {
            proof {
                assert(db.model.items@[item as int].wf());
            }
            let fuel = db.recursion_budget();
            proof {
                assert(fuel as int >= 8 + 2 * (db.model.items@[item as int].data.types@.len()
                    + db.model.items@[item as int].data.expressions@.len()
                    + db.model.items@[item as int].data.patterns@.len()));
            }
            if fuel > 0 {
                let ghost st1 = self.state;
                let _ = type_pattern_ref(
                    db,
                    &mut self.state,
                    TypingMode::Signature,
                    PatternRef { item, pattern: pat },
                    fuel - 1,
                );
                proof {
                    let ts = db0.model.items@[item as int].data.types@;
                    if st1.patterns@ == Map::<(int, int), PatternTy>::empty()
                        && st1.diagnostics@.len() == 0 {
                        assert(fuel - 1 >= ts.len() + 2);
                        match db0.model.items@[item as int].kind {
                            ItemKind::Declaration { declared_type, pattern, definition } => {
                                if !crate::types::spec_complete(ts, declared_type as int)
                                    && definition is None {
                                    assert(self.state.diagnostics@ =~= seq![
                                        crate::error::Error::UninferrableAny {
                                            pattern: PatternRef { item, pattern },
                                        },
                                    ]);
                                }
                            },
                            _ => {},
                        }
                    }
                }
            }
        }
    }

    /// Freeze the accumulated results.
    pub fn finish(self) -> (r: (SignatureTypes, Vec<crate::error::Error>))
        requires
            self.state.inv(),
        ensures
            r.0.inv(),
            forall|n: int| self.state.below(n) ==> r.0.below(n),
            r.0.patterns@ == self.state.patterns@,
            r.0.expressions@ == self.state.expressions@,
            r.0.identifier_resolution@ == self.state.identifier_resolution@,
            r.0.pattern_resolution@ == self.state.pattern_resolution@,
            r.1@ == self.state.diagnostics@,
    {
        SignatureTypes::from_state(self.state)
    }
}

} // verus!

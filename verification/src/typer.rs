//! The shared inference engine.
//!
//! One set of mutually recursive functions computes the type of a
//! declared-type node, an expression, or a name-introducing pattern.
//! The signature and body contexts both drive these functions; a
//! [`TypingMode`] value carries the one policy difference: signature
//! mode types dependency patterns locally under the `Computing` cycle
//! guard, body mode reads dependency signatures from the database cache
//! (computing a missing one on demand) and never recurses through its
//! own state.
//!
//! Pattern typing first checks whether a result already exists — a
//! cache hit returns it unchanged and reports nothing. Otherwise it
//! inserts [`PatternTy::Computing`] and replaces it once resolved;
//! meeting `Computing` again on re-entry is a self-referential
//! declaration: one cyclic-dependency diagnostic, an error type, no
//! further recursion. A separate recursion budget bounds the engine's
//! call depth for termination checking; the sentinel fires long before
//! the budget on any real cycle.

use vstd::prelude::*;

use crate::db::Db;
use crate::error::Error;
use crate::model::{ExpressionRef, Expression, ItemKind, Model, Parameter, Pattern, PatternRef};
use crate::overload::{resolve_overload, OverloadResult};
use crate::registry::TypeRegistry;
use crate::state::TypingState;
use crate::ty::{
    spec_subtype, ty_children_below, FunctionEntry, FunctionType, OptType, Ty, TyData, VarType,
};
use crate::typecheck::{
    entry_below, lemma_pattern_ty_eq_below, pattern_ty_below, pattern_ty_eq, PatternTy,
};
use crate::types::{spec_complete, Type};

verus! {

/// Which persistence and recursion policy drives the engine.
#[derive(Clone, Copy, Debug, PartialEq, Eq, Structural)]
pub enum TypingMode {
    /// Typing a signature: dependencies are recomputed locally
    Signature,
    /// Typing a body: dependency signatures come from the cache
    Body,
}

/// The arena index of the pattern that an item's signature declares, if
/// the item bears one.
pub open spec fn item_main_pattern(m: Model, i: int) -> Option<int> {
    match m.items@[i].kind {
        ItemKind::Declaration { pattern, .. } => Some(pattern as int),
        ItemKind::Function { pattern, .. } => Some(pattern as int),
        _ => None,
    }
}

/// The pattern exists and is the identifier `name`.
pub open spec fn pattern_named(m: Model, p: PatternRef, name: u32) -> bool {
    &&& (p.item as int) < m.items@.len()
    &&& (p.pattern as int) < m.items@[p.item as int].data.patterns@.len()
    &&& m.items@[p.item as int].data.patterns@[p.pattern as int] == Pattern::Identifier(name)
}

/// The pattern is the declared pattern of a top-level item.
pub open spec fn global_candidate(m: Model, p: PatternRef) -> bool {
    &&& (p.item as int) < m.items@.len()
    &&& item_main_pattern(m, p.item as int) == Some(p.pattern as int)
}

/// The pattern is a parameter of the function item being typed.
pub open spec fn param_candidate(m: Model, item: int, p: PatternRef) -> bool {
    &&& p.item as int == item
    &&& 0 <= item < m.items@.len()
    &&& (m.items@[item].kind matches ItemKind::Function { parameters, .. } && exists|j: int|
        0 <= j < parameters@.len() && (#[trigger] parameters@[j]).pattern == p.pattern)
}

/// Some pattern of the scope of `item` declares `name`.
pub open spec fn name_in_scope(m: Model, item: int, name: u32) -> bool {
    exists|p: PatternRef|
        (param_candidate(m, item, p) || global_candidate(m, p)) && #[trigger] pattern_named(
            m,
            p,
            name,
        )
}

/// What the engine requires of the database and the typing state.
pub open spec fn engine_pre(db: Db, st: TypingState) -> bool {
    &&& db.wf()
    &&& st.inv()
    &&& st.below(db.interner@.len() as int)
}

/// The signature cache is untouched between two database states.
pub open spec fn cache_frame(db0: Db, db1: Db) -> bool {
    &&& db1.signatures == db0.signatures
    &&& db1.signature_errors == db0.signature_errors
}

/// What every engine step preserves: well-formedness, the model and the
/// registry, the arena's existing entries, the diagnostics already
/// raised, and every binding already recorded.
pub open spec fn engine_post(db0: Db, db1: Db, st0: TypingState, st1: TypingState) -> bool {
    &&& db1.wf()
    &&& st1.inv()
    &&& st1.below(db1.interner@.len() as int)
    &&& db1.model == db0.model
    &&& db1.registry == db0.registry
    &&& db0.interner@.is_prefix_of(db1.interner@)
    &&& st0.diagnostics@.is_prefix_of(st1.diagnostics@)
    &&& st1.item == st0.item
    &&& forall|k: (int, int)|
        st0.expressions@.contains_key(k) ==> #[trigger] st1.expressions@.contains_key(k)
    &&& forall|k: (int, int)|
        st0.patterns@.contains_key(k) ==> #[trigger] st1.patterns@.contains_key(k)
    &&& forall|k: (int, int)|
        st0.identifier_resolution@.contains_key(k) ==> #[trigger] st1.identifier_resolution@.contains_key(k)
}

/// Prefixes compose.
pub proof fn lemma_prefix_trans<A>(s1: Seq<A>, s2: Seq<A>, s3: Seq<A>)
    requires
        s1.is_prefix_of(s2),
        s2.is_prefix_of(s3),
    ensures
        s1.is_prefix_of(s3),
{
    assert(s1 =~= s3.subrange(0, s1.len() as int));
}

/// Two engine steps in a row are one engine step.
pub proof fn lemma_post_trans(
    db0: Db,
    db1: Db,
    db2: Db,
    st0: TypingState,
    st1: TypingState,
    st2: TypingState,
)
    requires
        engine_post(db0, db1, st0, st1),
        engine_post(db1, db2, st1, st2),
    ensures
        engine_post(db0, db2, st0, st2),
{
    lemma_prefix_trans(db0.interner@, db1.interner@, db2.interner@);
    lemma_prefix_trans(st0.diagnostics@, st1.diagnostics@, st2.diagnostics@);
    assert forall|k: (int, int)|
        st0.expressions@.contains_key(k) implies #[trigger] st2.expressions@.contains_key(k) by {
        assert(st1.expressions@.contains_key(k));
    }
    assert forall|k: (int, int)|
        st0.patterns@.contains_key(k) implies #[trigger] st2.patterns@.contains_key(k) by {
        assert(st1.patterns@.contains_key(k));
    }
    assert forall|k: (int, int)|
        st0.identifier_resolution@.contains_key(k) implies #[trigger] st2.identifier_resolution@.contains_key(k) by {
        assert(st1.identifier_resolution@.contains_key(k));
    }
}

/// The step introduced no `Computing` marker: any marker in the later
/// state was already in the earlier one. The marker is transient — each
/// computation that inserts it replaces it before returning — so every
/// engine step preserves this.
pub open spec fn no_new_computing(st0: TypingState, st1: TypingState) -> bool {
    forall|k: (int, int)|
        #[trigger] st1.patterns@.contains_key(k) && st1.patterns@[k] is Computing
            ==> st0.patterns@.contains_key(k) && st0.patterns@[k] is Computing
}

/// Equal pattern maps introduce nothing.
pub proof fn lemma_no_new_computing_refl(st0: TypingState, st1: TypingState)
    requires
        st0.patterns@ == st1.patterns@,
    ensures
        no_new_computing(st0, st1),
{
}

/// Inserting a value other than the marker introduces nothing.
pub proof fn lemma_no_new_computing_insert(
    st0: TypingState,
    st1: TypingState,
    k: (int, int),
    v: PatternTy,
)
    requires
        st1.patterns@ == st0.patterns@.insert(k, v),
        !(v is Computing),
    ensures
        no_new_computing(st0, st1),
{
    assert forall|k2: (int, int)|
        #[trigger] st1.patterns@.contains_key(k2) && st1.patterns@[k2] is Computing implies
        st0.patterns@.contains_key(k2) && st0.patterns@[k2] is Computing by {
        assert(k2 != k);
    }
}

/// A computation that inserted the marker and replaced it before
/// freezing introduced nothing.
pub proof fn lemma_computing_replaced(
    st0: TypingState,
    stc: TypingState,
    stm: TypingState,
    stf: TypingState,
    pk: (int, int),
    v: PatternTy,
)
    requires
        stc.patterns@ == st0.patterns@.insert(pk, PatternTy::Computing),
        no_new_computing(stc, stm),
        stf.patterns@ == stm.patterns@.insert(pk, v),
        !(v is Computing),
    ensures
        no_new_computing(st0, stf),
{
    assert forall|k: (int, int)|
        #[trigger] stf.patterns@.contains_key(k) && stf.patterns@[k] is Computing implies
        st0.patterns@.contains_key(k) && st0.patterns@[k] is Computing by {
        assert(k != pk);
        assert(stm.patterns@.contains_key(k) && stm.patterns@[k] is Computing);
        assert(stc.patterns@.contains_key(k) && stc.patterns@[k] is Computing);
    }
}

/// Two marker-free steps compose.
pub proof fn lemma_no_new_computing_trans(st0: TypingState, st1: TypingState, st2: TypingState)
    requires
        no_new_computing(st0, st1),
        no_new_computing(st1, st2),
    ensures
        no_new_computing(st0, st2),
{
    assert forall|k: (int, int)|
        #[trigger] st2.patterns@.contains_key(k) && st2.patterns@[k] is Computing implies
        st0.patterns@.contains_key(k) && st0.patterns@[k] is Computing by {
        assert(st1.patterns@.contains_key(k) && st1.patterns@[k] is Computing);
    }
}

/// Fitting below a shorter arena fits below a longer one.
pub proof fn lemma_state_below_mono(st: TypingState, n1: int, n2: int)
    requires
        st.below(n1),
        n1 <= n2,
    ensures
        st.below(n2),
{
    assert forall|k: (int, int)| st.patterns@.contains_key(k) implies pattern_ty_below(
        #[trigger] st.patterns@[k],
        n2,
    ) by {
        crate::typecheck::lemma_pattern_ty_below_mono(st.patterns@[k], n1, n2);
    }
}

/// Record a computed expression type.
pub(crate) fn record_expression(st: &mut TypingState, item: usize, e: usize, t: Ty, n: Ghost<int>)
    requires
        old(st).inv(),
        old(st).below(n@),
        t.0 < n@,
    ensures
        final(st).inv(),
        final(st).below(n@),
        final(st).expressions@ == old(st).expressions@.insert((item as int, e as int), t),
        final(st).patterns@ == old(st).patterns@,
        final(st).identifier_resolution@ == old(st).identifier_resolution@,
        final(st).pattern_resolution@ == old(st).pattern_resolution@,
        final(st).diagnostics@ == old(st).diagnostics@,
        final(st).item == old(st).item,
{
    st.expressions.insert(item, e, t);
}

/// Record a computed pattern type.
pub(crate) fn record_declaration(st: &mut TypingState, p: PatternRef, d: PatternTy, n: Ghost<int>)
    requires
        old(st).inv(),
        old(st).below(n@),
        pattern_ty_below(d, n@),
    ensures
        final(st).inv(),
        final(st).below(n@),
        final(st).patterns@ == old(st).patterns@.insert((p.item as int, p.pattern as int), d),
        final(st).expressions@ == old(st).expressions@,
        final(st).identifier_resolution@ == old(st).identifier_resolution@,
        final(st).pattern_resolution@ == old(st).pattern_resolution@,
        final(st).diagnostics@ == old(st).diagnostics@,
        final(st).item == old(st).item,
{
    st.patterns.insert(p.item, p.pattern, d);
}

/// Record an identifier's resolution.
pub(crate) fn record_identifier_resolution(st: &mut TypingState, item: usize, e: usize, p: PatternRef)
    requires
        old(st).inv(),
    ensures
        final(st).inv(),
        final(st).identifier_resolution@ == old(st).identifier_resolution@.insert(
            (item as int, e as int),
            p,
        ),
        final(st).patterns@ == old(st).patterns@,
        final(st).expressions@ == old(st).expressions@,
        final(st).pattern_resolution@ == old(st).pattern_resolution@,
        final(st).diagnostics@ == old(st).diagnostics@,
        final(st).item == old(st).item,
        forall|n: int| old(st).below(n) ==> final(st).below(n),
{
    st.identifier_resolution.insert(item, e, p);
}

/// Raise a diagnostic.
pub(crate) fn record_diagnostic(st: &mut TypingState, e: Error)
    requires
        old(st).inv(),
    ensures
        final(st).inv(),
        final(st).diagnostics@ == old(st).diagnostics@.push(e),
        final(st).patterns@ == old(st).patterns@,
        final(st).expressions@ == old(st).expressions@,
        final(st).identifier_resolution@ == old(st).identifier_resolution@,
        final(st).pattern_resolution@ == old(st).pattern_resolution@,
        final(st).item == old(st).item,
        old(st).diagnostics@.is_prefix_of(final(st).diagnostics@),
        forall|n: int| old(st).below(n) ==> final(st).below(n),
{
    st.diagnostics.push(e);
    proof {
        assert(old(st).diagnostics@ =~= st.diagnostics@.subrange(
            0,
            old(st).diagnostics@.len() as int,
        ));
    }
}

/// Copy a list of arena indices.
pub fn copy_indices(v: &Vec<usize>) -> (r: Vec<usize>)
    ensures
        r@ == v@,
{
    let mut r: Vec<usize> = Vec::new();
    let mut i: usize = 0;
    while i < v.len()
        invariant
            i <= v@.len(),
            r@ == v@.take(i as int),
        decreases v@.len() - i,
    {
        r.push(v[i]);
        proof {
            assert(r@ =~= v@.take(i + 1 as int));
        }
        i = i + 1;
    }
    proof {
        assert(r@ =~= v@);
    }
    r
}

/// Copy a list of declared parameters.
fn copy_parameters(v: &Vec<Parameter>) -> (r: Vec<Parameter>)
    ensures
        r@ == v@,
{
    let mut r: Vec<Parameter> = Vec::new();
    let mut i: usize = 0;
    while i < v.len()
        invariant
            i <= v@.len(),
            r@ == v@.take(i as int),
        decreases v@.len() - i,
    {
        r.push(v[i]);
        proof {
            assert(r@ =~= v@.take(i + 1 as int));
        }
        i = i + 1;
    }
    proof {
        assert(r@ =~= v@);
    }
    r
}

/// Find a parameter of the item that declares the name.
fn resolve_param(model: &Model, item: usize, name: u32) -> (r: Option<PatternRef>)
    requires
        model.wf(),
        (item as int) < model.items@.len(),
    ensures
        r matches Some(p) ==> param_candidate(*model, item as int, p) && pattern_named(
            *model,
            p,
            name,
        ),
        r is None ==> forall|p: PatternRef|
            param_candidate(*model, item as int, p) ==> !#[trigger] pattern_named(*model, p, name),
{
    let ghost m = *model;
    proof {
        assert(model.items@[item as int].wf());
    }
    if let ItemKind::Function { parameters, .. } = &model.items[item].kind {
        let mut j: usize = 0;
        while j < parameters.len()
            invariant
                model.wf(),
                m == *model,
                (item as int) < model.items@.len(),
                model.items@[item as int].kind matches ItemKind::Function { parameters: ps, .. }
                    && ps@ == parameters@,
                j <= parameters@.len(),
                forall|k: int|
                    0 <= k < j ==> !pattern_named(
                        m,
                        PatternRef { item, pattern: (#[trigger] parameters@[k]).pattern },
                        name,
                    ),
            decreases parameters@.len() - j,
        {
            let pat = parameters[j].pattern;
            proof {
                assert(model.items@[item as int].wf());
            }
            if let Pattern::Identifier(n) = &model.items[item].data.patterns[pat] {
                if *n == name {
                    proof {
                        assert(pattern_named(m, PatternRef { item, pattern: pat }, name));
                        assert(param_candidate(m, item as int, PatternRef { item, pattern: pat }));
                    }
                    return Some(PatternRef { item, pattern: pat });
                }
            }
            j = j + 1;
        }
        proof {
            assert forall|p: PatternRef|
                param_candidate(m, item as int, p) implies !#[trigger] pattern_named(
                m,
                p,
                name,
            ) by {
                let jj = choose|jj: int|
                    0 <= jj < parameters@.len() && (#[trigger] parameters@[jj]).pattern
                        == p.pattern;
                assert(!pattern_named(
                    m,
                    PatternRef { item, pattern: parameters@[jj].pattern },
                    name,
                ));
            }
        }
        None
    } else {
        proof {
            assert forall|p: PatternRef|
                param_candidate(m, item as int, p) implies !#[trigger] pattern_named(
                m,
                p,
                name,
            ) by {}
        }
        None
    }
}

/// Resolve a name in the scope of an item: the item's own parameters
/// shadow top-level declarations.
pub fn resolve_name(model: &Model, item: usize, name: u32) -> (r: Option<PatternRef>)
    requires
        model.wf(),
        (item as int) < model.items@.len(),
    ensures
        r matches Some(p) ==> pattern_named(*model, p, name) && (param_candidate(
            *model,
            item as int,
            p,
        ) || global_candidate(*model, p)),
        r is None ==> !name_in_scope(*model, item as int, name),
        (exists|p: PatternRef|
            param_candidate(*model, item as int, p) && #[trigger] pattern_named(*model, p, name))
            ==> (r matches Some(p) && param_candidate(*model, item as int, p)),
{
    // Parameters of the enclosing function shadow global names
    let param_hit = resolve_param(model, item, name);
    if let Some(p) = param_hit {
        return Some(p);
    }
    // No parameter matched: search the top-level declarations
    let ghost m = *model;
    let mut i: usize = 0;
    while i < model.items.len()
        invariant
            model.wf(),
            m == *model,
            i <= model.items@.len(),
            forall|k: int|
                0 <= k < i ==> ((#[trigger] item_main_pattern(m, k)) matches Some(q)
                    ==> !pattern_named(
                    m,
                    PatternRef { item: k as usize, pattern: q as usize },
                    name,
                )),
            forall|p: PatternRef|
                param_candidate(m, item as int, p) ==> !#[trigger] pattern_named(m, p, name),
        decreases model.items@.len() - i,
    {
        let main: Option<usize> = match &model.items[i].kind {
            ItemKind::Declaration { pattern, .. } => Some(*pattern),
            ItemKind::Function { pattern, .. } => Some(*pattern),
            _ => None,
        };
        if let Some(pat) = main {
            proof {
                assert(model.items@[i as int].wf());
            }
            if let Pattern::Identifier(n) = &model.items[i].data.patterns[pat] {
                if *n == name {
                    proof {
                        assert(pattern_named(m, PatternRef { item: i, pattern: pat }, name));
                        assert(global_candidate(m, PatternRef { item: i, pattern: pat }));
                    }
                    return Some(PatternRef { item: i, pattern: pat });
                }
            }
        }
        i = i + 1;
    }
    proof {
        assert forall|p: PatternRef| !((param_candidate(m, item as int, p) || global_candidate(
            m,
            p,
        )) && #[trigger] pattern_named(m, p, name)) by {
            if global_candidate(m, p) && pattern_named(m, p, name) {
                assert(item_main_pattern(m, p.item as int) == Some(p.pattern as int));
                assert(!pattern_named(
                    m,
                    PatternRef { item: p.item, pattern: p.pattern },
                    name,
                ));
            }
        }
    }
    None
}

/// The interned primitive of the given inst, optionality and base: a
/// registry entry where one exists, a fresh entry otherwise.
fn primitive_ty(
    db: &mut Db,
    inst: VarType,
    opt: OptType,
    primitive_type: crate::ty::PrimitiveType,
) -> (r: Ty)
    requires
        old(db).wf(),
    ensures
        final(db).wf(),
        final(db).model == old(db).model,
        final(db).registry == old(db).registry,
        final(db).signatures == old(db).signatures,
        final(db).signature_errors == old(db).signature_errors,
        old(db).interner@.is_prefix_of(final(db).interner@),
        r.0 < final(db).interner@.len(),
        final(db).interner@[r.0 as int] == (TyData::Primitive { inst, opt, primitive_type }),
{
    proof {
        assert(old(db).interner@.is_prefix_of(old(db).interner@)) by {
            assert(old(db).interner@ =~= old(db).interner@.subrange(
                0,
                old(db).interner@.len() as int,
            ));
        }
    }
    if matches!(opt, OptType::NonOpt) {
        match (inst, primitive_type) {
            (VarType::Par, crate::ty::PrimitiveType::Bool) => {
                return db.registry.par_bool;
            },
            (VarType::Var, crate::ty::PrimitiveType::Bool) => {
                return db.registry.var_bool;
            },
            (VarType::Par, crate::ty::PrimitiveType::Int) => {
                return db.registry.par_int;
            },
            (VarType::Var, crate::ty::PrimitiveType::Int) => {
                return db.registry.var_int;
            },
            (VarType::Par, crate::ty::PrimitiveType::Float) => {
                return db.registry.par_float;
            },
            (VarType::Var, crate::ty::PrimitiveType::Float) => {
                return db.registry.var_float;
            },
            (VarType::Par, crate::ty::PrimitiveType::String) => {
                return db.registry.string;
            },
            (VarType::Par, crate::ty::PrimitiveType::Ann) => {
                return db.registry.ann;
            },
            _ => {},
        }
    }
    db.intern(TyData::Primitive { inst, opt, primitive_type })
}

/// Copy a list of record-field index pairs.
fn copy_field_pairs(v: &Vec<(usize, usize)>) -> (r: Vec<(usize, usize)>)
    ensures
        r@ == v@,
{
    let mut r: Vec<(usize, usize)> = Vec::new();
    let mut i: usize = 0;
    while i < v.len()
        invariant
            i <= v@.len(),
            r@ == v@.take(i as int),
        decreases v@.len() - i,
    {
        r.push(v[i]);
        proof {
            assert(r@ =~= v@.take(i + 1 as int));
        }
        i = i + 1;
    }
    proof {
        assert(r@ =~= v@);
    }
    r
}

/// A sequence is a prefix of itself.
pub proof fn lemma_prefix_refl<A>(s: Seq<A>)
    ensures
        s.is_prefix_of(s),
{
    assert(s =~= s.subrange(0, s.len() as int));
}

/// The more general of two element types, where one is a subtype of
/// the other; nothing, when they are unrelated.
fn lub_ty(db: &Db, a: Ty, b: Ty) -> (r: Option<Ty>)
    requires
        db.wf(),
        a.0 < db.interner@.len(),
        b.0 < db.interner@.len(),
    ensures
        r matches Some(t) ==> t.0 < db.interner@.len() && ((t == b && spec_subtype(
            db.interner@,
            a.0 as int,
            b.0 as int,
        )) || (t == a && spec_subtype(db.interner@, b.0 as int, a.0 as int))),
        r is None ==> !spec_subtype(db.interner@, a.0 as int, b.0 as int) && !spec_subtype(
            db.interner@,
            b.0 as int,
            a.0 as int,
        ),
{
    if db.interner.is_subtype(a, b) {
        Some(b)
    } else if db.interner.is_subtype(b, a) {
        Some(a)
    } else {
        None
    }
}


/// A written inst, or the one the domain's element carries.
pub open spec fn pick_inst(written: Option<VarType>, element: VarType) -> VarType {
    match written {
        Some(v) => v,
        None => element,
    }
}

/// A written optionality, or the one the domain's element carries.
pub open spec fn pick_opt(written: Option<OptType>, element: OptType) -> OptType {
    match written {
        Some(v) => v,
        None => element,
    }
}

/// The interned entry denotes the declared-type node: leaves match
/// exactly; composites match componentwise. A bounded node or an
/// anonymous type-inst variable is pinned only in kind, since its
/// meaning comes from evaluating its domain or binding its variable.
pub open spec fn declared_matches(ts: Seq<Type>, t: int, d: Seq<TyData>, ty: int) -> bool
    decreases t,
    when crate::types::types_ordered(ts) && 0 <= t < ts.len()
    via declared_matches_decreases
{
    &&& 0 <= ty < d.len()
    &&& match ts[t] {
        Type::Primitive { inst, opt, primitive_type } => d[ty] == (TyData::Primitive {
            inst,
            opt,
            primitive_type,
        }),
        Type::Any => d[ty] is Error,
        Type::Missing => d[ty] is Error,
        Type::Bounded { .. } => true,
        Type::AnonymousTypeInstVar { .. } => d[ty] is TyVar,
        Type::SetOf { inst, opt, element } => (d[ty] matches TyData::SetOf {
            inst: i2,
            opt: o2,
            element: e2,
        } && i2 == inst && o2 == opt && declared_matches(ts, element as int, d, e2.0 as int)),
        Type::Array { opt, dimensions, element } => (d[ty] matches TyData::Array {
            opt: o2,
            dimensions: d2,
            element: e2,
        } && o2 == opt && declared_matches(ts, dimensions as int, d, d2.0 as int)
            && declared_matches(ts, element as int, d, e2.0 as int)),
        Type::Tuple { opt, fields } => (d[ty] matches TyData::Tuple { opt: o2, fields: f2 } && o2
            == opt && f2@.len() == fields@.len() && (forall|k: int|
            0 <= k < fields@.len() ==> declared_matches(
                ts,
                (#[trigger] crate::types::type_children(ts[t])[k]) as int,
                d,
                f2@[k].0 as int,
            ))),
        Type::Record { opt, fields } => (d[ty] matches TyData::Record { opt: o2, fields: f2 } && o2
            == opt && f2@.len() == fields@.len() && (forall|k: int|
            0 <= k < fields@.len() ==> declared_matches(
                ts,
                (#[trigger] crate::types::type_children(ts[t])[k]) as int,
                d,
                f2@[k].1.0 as int,
            ))),
        Type::Operation { opt, return_type, parameter_types } => (d[ty] matches TyData::Function {
            opt: o2,
            function: g,
        } && o2 == opt && declared_matches(ts, return_type as int, d, g.return_type.0 as int)
            && g.params@.len() == parameter_types@.len() && (forall|k: int|
            0 <= k < parameter_types@.len() ==> declared_matches(
                ts,
                (#[trigger] crate::types::type_children(ts[t])[k + 1]) as int,
                d,
                g.params@[k].0 as int,
            ))),
    }
}

#[via_fn]
proof fn declared_matches_decreases(ts: Seq<Type>, t: int, d: Seq<TyData>, ty: int) {
    assert(crate::types::type_children_below(ts[t], t));
    match ts[t] {
        Type::SetOf { element, .. } => {
            assert(crate::types::type_children(ts[t])[0] == element);
        },
        Type::Array { dimensions, element, .. } => {
            assert(crate::types::type_children(ts[t])[0] == dimensions);
            assert(crate::types::type_children(ts[t])[1] == element);
        },
        Type::Operation { return_type, .. } => {
            assert(crate::types::type_children(ts[t])[0] == return_type);
        },
        _ => {},
    }
}

/// The denotation does not change when the arena grows: it reads only
/// existing entries.
pub proof fn lemma_declared_matches_extend(
    ts: Seq<Type>,
    t: int,
    d1: Seq<TyData>,
    d2: Seq<TyData>,
    ty: int,
)
    requires
        crate::types::types_ordered(ts),
        0 <= t < ts.len(),
        d1.is_prefix_of(d2),
        declared_matches(ts, t, d1, ty),
    ensures
        declared_matches(ts, t, d2, ty),
    decreases t,
{
    assert(d2[ty] == d1[ty]);
    assert(crate::types::type_children_below(ts[t], t));
    match ts[t] {
        Type::SetOf { element, .. } => {
            assert(crate::types::type_children(ts[t])[0] == element);
            match d1[ty] {
                TyData::SetOf { element: e2, .. } => {
                    lemma_declared_matches_extend(ts, element as int, d1, d2, e2.0 as int);
                },
                _ => {},
            }
        },
        Type::Array { dimensions, element, .. } => {
            assert(crate::types::type_children(ts[t])[0] == dimensions);
            assert(crate::types::type_children(ts[t])[1] == element);
            match d1[ty] {
                TyData::Array { dimensions: d3, element: e2, .. } => {
                    lemma_declared_matches_extend(ts, dimensions as int, d1, d2, d3.0 as int);
                    lemma_declared_matches_extend(ts, element as int, d1, d2, e2.0 as int);
                },
                _ => {},
            }
        },
        Type::Tuple { fields, .. } => {
            match d1[ty] {
                TyData::Tuple { fields: f2, .. } => {
                    if f2@.len() == fields@.len() {
                        assert forall|k: int| 0 <= k < fields@.len() implies declared_matches(
                            ts,
                            (#[trigger] crate::types::type_children(ts[t])[k]) as int,
                            d2,
                            f2@[k].0 as int,
                        ) by {
                            lemma_declared_matches_extend(
                                ts,
                                crate::types::type_children(ts[t])[k] as int,
                                d1,
                                d2,
                                f2@[k].0 as int,
                            );
                        }
                    }
                },
                _ => {},
            }
        },
        Type::Record { fields, .. } => {
            match d1[ty] {
                TyData::Record { fields: f2, .. } => {
                    if f2@.len() == fields@.len() {
                        assert forall|k: int| 0 <= k < fields@.len() implies declared_matches(
                            ts,
                            (#[trigger] crate::types::type_children(ts[t])[k]) as int,
                            d2,
                            f2@[k].1.0 as int,
                        ) by {
                            lemma_declared_matches_extend(
                                ts,
                                crate::types::type_children(ts[t])[k] as int,
                                d1,
                                d2,
                                f2@[k].1.0 as int,
                            );
                        }
                    }
                },
                _ => {},
            }
        },
        Type::Operation { return_type, parameter_types, .. } => {
            match d1[ty] {
                TyData::Function { function: g, .. } => {
                    assert(crate::types::type_children(ts[t])[0] == return_type);
                    lemma_declared_matches_extend(
                        ts,
                        return_type as int,
                        d1,
                        d2,
                        g.return_type.0 as int,
                    );
                    if g.params@.len() == parameter_types@.len() {
                        assert forall|k: int|
                            0 <= k < parameter_types@.len() implies declared_matches(
                            ts,
                            (#[trigger] crate::types::type_children(ts[t])[k + 1]) as int,
                            d2,
                            g.params@[k].0 as int,
                        ) by {
                            lemma_declared_matches_extend(
                                ts,
                                crate::types::type_children(ts[t])[k + 1] as int,
                                d1,
                                d2,
                                g.params@[k].0 as int,
                            );
                        }
                    }
                },
                _ => {},
            }
        },
        _ => {},
    }
}

/// Compute the type of a declared-type node.
///
/// A `Primitive` node answers with exactly the written primitive; the
/// `Missing` sentinel and a bare `Any` answer with the error type (the
/// callers of an incomplete declared type take the initialiser's type
/// instead). A `Bounded` node types its domain expression and takes the
/// domain's element type, applying any written inst and optionality.
#[verifier::rlimit(80)]
pub fn type_declared(
    db: &mut Db,
    st: &mut TypingState,
    mode: TypingMode,
    item: usize,
    t: usize,
    fuel: u128,
) -> (r: Ty)
    requires
        engine_pre(*old(db), *old(st)),
        (item as int) < old(db).model.items@.len(),
        (t as int) < old(db).model.items@[item as int].data.types@.len(),
    ensures
        engine_post(*old(db), *final(db), *old(st), *final(st)),
        r.0 < final(db).interner@.len(),
        (old(db).model.items@[item as int].data.types@[t as int] matches Type::Primitive {
            inst,
            opt,
            primitive_type,
        } ==> final(db).interner@[r.0 as int] == (TyData::Primitive { inst, opt, primitive_type })
            && final(st).diagnostics@ == old(st).diagnostics@),
        (old(db).model.items@[item as int].data.types@[t as int] is Missing ==> r == old(db).registry.error && final(st).diagnostics@ == old(st).diagnostics@),
        (old(db).model.items@[item as int].data.types@[t as int] is Any ==> r == old(db).registry.error && final(st).diagnostics@ == old(st).diagnostics@),
        mode == TypingMode::Signature ==> cache_frame(*old(db), *final(db)),
        no_new_computing(*old(st), *final(st)),
        ({
            let node = old(db).model.items@[item as int].data.types@[t as int];
            node matches Type::Bounded { inst, opt, domain } ==> (fuel > 0 ==> (
            final(st).expressions@.contains_key((item as int, domain as int)) && ({
                let dt = final(st).expressions@[(item as int, domain as int)];
                final(db).interner@[dt.0 as int] matches TyData::SetOf { element: el, .. } ==> ((
                final(db).interner@[el.0 as int] matches TyData::Primitive {
                    inst: ei,
                    opt: eo,
                    primitive_type: ep,
                } ==> final(db).interner@[r.0 as int] == (TyData::Primitive {
                    inst: pick_inst(inst, ei),
                    opt: pick_opt(opt, eo),
                    primitive_type: ep,
                })) && (!(final(db).interner@[el.0 as int] is Primitive) ==> r == el))
            })))
        }),
        fuel >= t + 1 ==> declared_matches(
            old(db).model.items@[item as int].data.types@,
            t as int,
            final(db).interner@,
            r.0 as int,
        ),
    decreases fuel, 3int,
{
    let ghost db0 = *old(db);
    let ghost st0 = *old(st);
    let ghost ts0 = db0.model.items@[item as int].data.types@;
    proof {
        assert(db.model.items@[item as int].wf());
        lemma_prefix_refl(db.interner@);
        lemma_prefix_refl(st.diagnostics@);
    }
    // Leaf nodes first: they need no recursion budget
    match &db.model.items[item].data.types[t] {
        Type::Primitive { inst, opt, primitive_type } => {
            let i2 = *inst;
            let o2 = *opt;
            let p2 = *primitive_type;
            let r = primitive_ty(db, i2, o2, p2);
            proof {
                lemma_state_below_mono(*st, db0.interner@.len() as int, db.interner@.len() as int);
            }
            return r;
        },
        Type::Any => {
            return db.registry.error;
        },
        Type::Missing => {
            return db.registry.error;
        },
        Type::AnonymousTypeInstVar { pattern, .. } => {
            let pat = *pattern;
            let var = #[verifier::truncate] (pat as u32);
            let r = db.intern(TyData::TyVar { var });
            proof {
                lemma_state_below_mono(*st, db0.interner@.len() as int, db.interner@.len() as int);
            }
            record_declaration(
                st,
                PatternRef { item, pattern: pat },
                PatternTy::TyVar(var),
                Ghost(db.interner@.len() as int),
            );
            return r;
        },
        _ => {},
    }
    if fuel == 0 {
        return db.registry.error;
    }
    // Recursive nodes: take what each arm needs out of the borrow first
    match &db.model.items[item].data.types[t] {
        Type::Bounded { inst, opt, domain } => {
            let inst2 = *inst;
            let opt2 = *opt;
            let dom = *domain;
            proof {
                assert(crate::types::type_refs_ok(
                    db.model.items@[item as int].data.types@[t as int],
                    db.model.items@[item as int].data.expressions@.len() as int,
                    db.model.items@[item as int].data.patterns@.len() as int,
                ));
            }
            let dt = type_expression(db, st, mode, item, dom, fuel - 1);
            let ghost db1 = *db;
            let ghost st1 = *st;
            // The domain's type must be a set; the variable has its
            // element type, with the written inst and optionality
            let elem: Option<Ty> = match db.interner.get(dt) {
                TyData::SetOf { element, .. } => Some(*element),
                TyData::Error => None,
                _ => None,
            };
            let is_err = matches!(db.interner.get(dt), TyData::Error);
            match elem {
                Some(el) => {
                    proof {
                        assert(crate::ty::arena_inv(db.interner@));
                        assert(crate::ty::ty_children_below(
                            db.interner@[dt.0 as int],
                            dt.0 as int,
                        ));
                    }
                    // Apply written inst/optionality to a primitive element
                    let r: Ty = match db.interner.get(el) {
                        TyData::Primitive { inst: ei, opt: eo, primitive_type: ep } => {
                            let ni = match inst2 {
                                Some(v) => v,
                                None => *ei,
                            };
                            let no = match opt2 {
                                Some(v) => v,
                                None => *eo,
                            };
                            let ep2 = *ep;
                            let r2 = primitive_ty(db, ni, no, ep2);
                            r2
                        },
                        _ => el,
                    };
                    proof {
                        lemma_post_trans(db0, db1, *db, st0, st1, *st);
                lemma_no_new_computing_trans(st0, st1, *st);
                        lemma_state_below_mono(
                            *st,
                            db1.interner@.len() as int,
                            db.interner@.len() as int,
                        );
                    }
                    return r;
                },
                None => {
                    if !is_err {
                        record_diagnostic(
                            st,
                            Error::StructuralTypeMismatch {
                                expression: ExpressionRef { item, expression: dom },
                            },
                        );
                    }
                    proof {
                        lemma_post_trans(db0, db1, *db, st0, st1, *st);
                lemma_no_new_computing_trans(st0, st1, *st);
                    }
                    return db.registry.error;
                },
            }
        },
        Type::SetOf { inst, opt, element } => {
            let inst2 = *inst;
            let opt2 = *opt;
            let el = *element;
            proof {
                assert(crate::types::type_children_below(
                    db.model.items@[item as int].data.types@[t as int],
                    t as int,
                ));
                assert(crate::types::type_children(
                    db.model.items@[item as int].data.types@[t as int],
                )[0] == el);
            }
            let et = type_declared(db, st, mode, item, el, fuel - 1);
            let ghost db1 = *db;
            let ghost st1 = *st;
            let r = db.intern(TyData::SetOf { inst: inst2, opt: opt2, element: et });
            proof {
                lemma_post_trans(db0, db1, *db, st0, st1, *st);
                lemma_no_new_computing_trans(st0, st1, *st);
                lemma_state_below_mono(*st, db1.interner@.len() as int, db.interner@.len() as int);
                if fuel >= t + 1 {
                    assert((el as int) < t as int);
                    lemma_declared_matches_extend(
                        ts0,
                        el as int,
                        db1.interner@,
                        db.interner@,
                        et.0 as int,
                    );
                    assert(declared_matches(ts0, t as int, db.interner@, r.0 as int));
                }
            }
            return r;
        },
        Type::Array { opt, dimensions, element } => {
            let opt2 = *opt;
            let dims = *dimensions;
            let el = *element;
            proof {
                assert(crate::types::type_children_below(
                    db.model.items@[item as int].data.types@[t as int],
                    t as int,
                ));
                assert(crate::types::type_children(
                    db.model.items@[item as int].data.types@[t as int],
                )[0] == dims);
                assert(crate::types::type_children(
                    db.model.items@[item as int].data.types@[t as int],
                )[1] == el);
            }
            let dt = type_declared(db, st, mode, item, dims, fuel - 1);
            let ghost db1 = *db;
            let ghost st1 = *st;
            let et = type_declared(db, st, mode, item, el, fuel - 1);
            let ghost db2 = *db;
            let ghost st2 = *st;
            let r = db.intern(TyData::Array { opt: opt2, dimensions: dt, element: et });
            proof {
                lemma_post_trans(db0, db1, db2, st0, st1, st2);
                lemma_no_new_computing_trans(st0, st1, st2);
                lemma_post_trans(db0, db2, *db, st0, st2, *st);
                lemma_no_new_computing_trans(st0, st2, *st);
                lemma_state_below_mono(*st, db2.interner@.len() as int, db.interner@.len() as int);
                if fuel >= t + 1 {
                    assert((dims as int) < t as int);
                    assert((el as int) < t as int);
                    lemma_declared_matches_extend(
                        ts0,
                        dims as int,
                        db1.interner@,
                        db2.interner@,
                        dt.0 as int,
                    );
                    lemma_declared_matches_extend(
                        ts0,
                        dims as int,
                        db2.interner@,
                        db.interner@,
                        dt.0 as int,
                    );
                    lemma_declared_matches_extend(
                        ts0,
                        el as int,
                        db2.interner@,
                        db.interner@,
                        et.0 as int,
                    );
                    assert(declared_matches(ts0, t as int, db.interner@, r.0 as int));
                }
            }
            return r;
        },
        Type::Tuple { opt, fields } => {
            let opt2 = *opt;
            let children = copy_indices(fields);
            proof {
                assert(crate::types::type_children_below(
                    db.model.items@[item as int].data.types@[t as int],
                    t as int,
                ));
            }
            let ghost cs = children@;
            proof {
                assert forall|k: int| 0 <= k < cs.len() implies (#[trigger] cs[k] as int)
                    < db.model.items@[item as int].data.types@.len() by {
                    assert(crate::types::type_children(
                        db.model.items@[item as int].data.types@[t as int],
                    )[k] < t);
                }
                assert forall|k: int| 0 <= k < cs.len() implies (#[trigger] cs[k] as int)
                    < t as int by {
                    assert(crate::types::type_children(ts0[t as int])[k] < t);
                }
            }
            let mut tys: Vec<Ty> = Vec::new();
            let mut i: usize = 0;
            while i < children.len()
                invariant
                    engine_pre(*db, *st),
                    engine_post(db0, *db, st0, *st),
                    no_new_computing(st0, *st),
                    mode == TypingMode::Signature ==> cache_frame(db0, *db),
                    db.model == db0.model,
                    (item as int) < db.model.items@.len(),
                    (t as int) < ts0.len(),
                    ts0 == db0.model.items@[item as int].data.types@,
                    crate::types::types_ordered(ts0),
                    children@ == cs,
                    ts0[t as int] matches Type::Tuple { fields: ff, .. } && ff@ == cs,
                    forall|k: int|
                        0 <= k < cs.len() ==> (#[trigger] cs[k] as int)
                            < db.model.items@[item as int].data.types@.len(),
                    forall|k: int| 0 <= k < cs.len() ==> (#[trigger] cs[k] as int) < t as int,
                    i <= cs.len(),
                    tys@.len() == i,
                    forall|k: int| 0 <= k < i ==> (#[trigger] tys@[k]).0 < db.interner@.len(),
                    fuel >= 1,
                    fuel >= t + 1 ==> forall|k: int|
                        0 <= k < i ==> declared_matches(
                            ts0,
                            (#[trigger] crate::types::type_children(ts0[t as int])[k]) as int,
                            db.interner@,
                            tys@[k].0 as int,
                        ),
                decreases cs.len() - i,
            {
                let ghost dbp = *db;
                let ghost stp = *st;
                let ct = type_declared(db, st, mode, item, children[i], fuel - 1);
                tys.push(ct);
                proof {
                    lemma_post_trans(db0, dbp, *db, st0, stp, *st);
                    lemma_no_new_computing_trans(st0, stp, *st);
                    if fuel >= t + 1 {
                        assert forall|k: int| 0 <= k < i + 1 implies declared_matches(
                            ts0,
                            (#[trigger] crate::types::type_children(ts0[t as int])[k]) as int,
                            db.interner@,
                            tys@[k].0 as int,
                        ) by {
                            assert(crate::types::type_children(ts0[t as int])[k] == cs[k]);
                            if k < i {
                                lemma_declared_matches_extend(
                                    ts0,
                                    cs[k] as int,
                                    dbp.interner@,
                                    db.interner@,
                                    tys@[k].0 as int,
                                );
                            } else {
                                assert(declared_matches(ts0, cs[k] as int, db.interner@, tys@[k].0 as int));
                            }
                        }
                    }
                }
                i = i + 1;
            }
            let ghost db3 = *db;
            let r = db.intern(TyData::Tuple { opt: opt2, fields: tys });
            proof {
                lemma_state_below_mono(*st, db.interner@.len() as int - 1, db.interner@.len() as int);
                if fuel >= t + 1 {
                    assert forall|k: int| 0 <= k < cs.len() implies declared_matches(
                        ts0,
                        (#[trigger] crate::types::type_children(ts0[t as int])[k]) as int,
                        db.interner@,
                        tys@[k].0 as int,
                    ) by {
                        assert(crate::types::type_children(ts0[t as int])[k] == cs[k]);
                        lemma_declared_matches_extend(
                            ts0,
                            cs[k] as int,
                            db3.interner@,
                            db.interner@,
                            tys@[k].0 as int,
                        );
                    }
                    assert(declared_matches(ts0, t as int, db.interner@, r.0 as int));
                }
            }
            return r;
        },
        Type::Record { opt, fields } => {
            let opt2 = *opt;
            let pairs = copy_field_pairs(fields);
            proof {
                assert(crate::types::type_children_below(
                    db.model.items@[item as int].data.types@[t as int],
                    t as int,
                ));
                assert(crate::types::type_refs_ok(
                    db.model.items@[item as int].data.types@[t as int],
                    db.model.items@[item as int].data.expressions@.len() as int,
                    db.model.items@[item as int].data.patterns@.len() as int,
                ));
            }
            let ghost cs = pairs@;
            let mut tys: Vec<(u32, Ty)> = Vec::new();
            let mut i: usize = 0;
            while i < pairs.len()
                invariant
                    engine_pre(*db, *st),
                    engine_post(db0, *db, st0, *st),
                    no_new_computing(st0, *st),
                    mode == TypingMode::Signature ==> cache_frame(db0, *db),
                    db.model == db0.model,
                    (item as int) < db.model.items@.len(),
                    pairs@ == cs,
                    (t as int) < db.model.items@[item as int].data.types@.len(),
                    ts0[t as int] matches Type::Record { fields: f, .. } && f@ == cs,
                    i <= cs.len(),
                    tys@.len() == i,
                    forall|k: int| 0 <= k < i ==> (#[trigger] tys@[k]).1.0 < db.interner@.len(),
                    fuel >= 1,
                    ts0 == db0.model.items@[item as int].data.types@,
                    (t as int) < ts0.len(),
                    crate::types::types_ordered(ts0),
                    fuel >= t + 1 ==> forall|k: int|
                        0 <= k < i ==> declared_matches(
                            ts0,
                            (#[trigger] crate::types::type_children(ts0[t as int])[k]) as int,
                            db.interner@,
                            tys@[k].1.0 as int,
                        ),
                decreases cs.len() - i,
            {
                proof {
                    assert(crate::types::type_children(
                        db.model.items@[item as int].data.types@[t as int],
                    )[i as int] == cs[i as int].1);
                    assert(crate::types::type_children_below(
                        db.model.items@[item as int].data.types@[t as int],
                        t as int,
                    ));
                    assert(crate::types::type_refs_ok(
                        db.model.items@[item as int].data.types@[t as int],
                        db.model.items@[item as int].data.expressions@.len() as int,
                        db.model.items@[item as int].data.patterns@.len() as int,
                    ));
                    assert(db.model.items@[item as int].wf());
                }
                let (fp, ft) = pairs[i];
                let name: u32 = match &db.model.items[item].data.patterns[fp] {
                    Pattern::Identifier(n) => *n,
                    _ => 0,
                };
                let ghost dbp = *db;
                let ghost stp = *st;
                let ct = type_declared(db, st, mode, item, ft, fuel - 1);
                tys.push((name, ct));
                proof {
                    lemma_post_trans(db0, dbp, *db, st0, stp, *st);
                    lemma_no_new_computing_trans(st0, stp, *st);
                    if fuel >= t + 1 {
                        assert(crate::types::type_children_below(ts0[t as int], t as int));
                        assert forall|k: int| 0 <= k < i + 1 implies declared_matches(
                            ts0,
                            (#[trigger] crate::types::type_children(ts0[t as int])[k]) as int,
                            db.interner@,
                            tys@[k].1.0 as int,
                        ) by {
                            assert(crate::types::type_children(ts0[t as int])[k] == cs[k].1);
                            if k < i {
                                lemma_declared_matches_extend(
                                    ts0,
                                    cs[k].1 as int,
                                    dbp.interner@,
                                    db.interner@,
                                    tys@[k].1.0 as int,
                                );
                            } else {
                                assert(declared_matches(
                                    ts0,
                                    cs[k].1 as int,
                                    db.interner@,
                                    tys@[k].1.0 as int,
                                ));
                            }
                        }
                    }
                }
                i = i + 1;
            }
            let ghost db3 = *db;
            let r = db.intern(TyData::Record { opt: opt2, fields: tys });
            proof {
                lemma_state_below_mono(*st, db.interner@.len() as int - 1, db.interner@.len() as int);
                if fuel >= t + 1 {
                    assert(crate::types::type_children_below(ts0[t as int], t as int));
                    assert forall|k: int| 0 <= k < cs.len() implies declared_matches(
                        ts0,
                        (#[trigger] crate::types::type_children(ts0[t as int])[k]) as int,
                        db.interner@,
                        tys@[k].1.0 as int,
                    ) by {
                        assert(crate::types::type_children(ts0[t as int])[k] == cs[k].1);
                        lemma_declared_matches_extend(
                            ts0,
                            cs[k].1 as int,
                            db3.interner@,
                            db.interner@,
                            tys@[k].1.0 as int,
                        );
                    }
                    assert(declared_matches(ts0, t as int, db.interner@, r.0 as int));
                }
            }
            return r;
        },
        Type::Operation { opt, return_type, parameter_types } => {
            let opt2 = *opt;
            let rt_idx = *return_type;
            let params_idx = copy_indices(parameter_types);
            proof {
                assert(crate::types::type_children_below(
                    db.model.items@[item as int].data.types@[t as int],
                    t as int,
                ));
                assert(crate::types::type_children(
                    db.model.items@[item as int].data.types@[t as int],
                )[0] == rt_idx);
            }
            let rt = type_declared(db, st, mode, item, rt_idx, fuel - 1);
            let ghost db1 = *db;
            let ghost st1 = *st;
            let ghost cs = params_idx@;
            let mut tys: Vec<Ty> = Vec::new();
            let mut i: usize = 0;
            while i < params_idx.len()
                invariant
                    engine_pre(*db, *st),
                    engine_post(db0, *db, st0, *st),
                    no_new_computing(st0, *st),
                    mode == TypingMode::Signature ==> cache_frame(db0, *db),
                    db.model == db0.model,
                    (item as int) < db.model.items@.len(),
                    params_idx@ == cs,
                    (t as int) < db.model.items@[item as int].data.types@.len(),
                    ts0[t as int] matches Type::Operation {
                        return_type: rr,
                        parameter_types: f,
                        ..
                    } && rr == rt_idx && f@ == cs,
                    rt.0 < db.interner@.len(),
                    i <= cs.len(),
                    tys@.len() == i,
                    forall|k: int| 0 <= k < i ==> (#[trigger] tys@[k]).0 < db.interner@.len(),
                    fuel >= 1,
                    ts0 == db0.model.items@[item as int].data.types@,
                    (t as int) < ts0.len(),
                    crate::types::types_ordered(ts0),
                    fuel >= t + 1 ==> declared_matches(ts0, rt_idx as int, db.interner@, rt.0 as int),
                    fuel >= t + 1 ==> forall|k: int|
                        0 <= k < i ==> declared_matches(
                            ts0,
                            (#[trigger] crate::types::type_children(ts0[t as int])[k + 1]) as int,
                            db.interner@,
                            tys@[k].0 as int,
                        ),
                decreases cs.len() - i,
            {
                proof {
                    assert(crate::types::type_children(
                        db.model.items@[item as int].data.types@[t as int],
                    )[i + 1] == cs[i as int]);
                    assert(crate::types::type_children_below(
                        db.model.items@[item as int].data.types@[t as int],
                        t as int,
                    ));
                }
                let ghost dbp = *db;
                let ghost stp = *st;
                let ct = type_declared(db, st, mode, item, params_idx[i], fuel - 1);
                tys.push(ct);
                proof {
                    lemma_post_trans(db0, dbp, *db, st0, stp, *st);
                    lemma_no_new_computing_trans(st0, stp, *st);
                    if fuel >= t + 1 {
                        assert(crate::types::type_children_below(ts0[t as int], t as int));
                        assert(crate::types::type_children(ts0[t as int])[0] == rt_idx);
                        lemma_declared_matches_extend(
                            ts0,
                            rt_idx as int,
                            dbp.interner@,
                            db.interner@,
                            rt.0 as int,
                        );
                        assert forall|k: int| 0 <= k < i + 1 implies declared_matches(
                            ts0,
                            (#[trigger] crate::types::type_children(ts0[t as int])[k + 1]) as int,
                            db.interner@,
                            tys@[k].0 as int,
                        ) by {
                            assert(crate::types::type_children(ts0[t as int])[k + 1] == cs[k]);
                            if k < i {
                                lemma_declared_matches_extend(
                                    ts0,
                                    cs[k] as int,
                                    dbp.interner@,
                                    db.interner@,
                                    tys@[k].0 as int,
                                );
                            } else {
                                assert(declared_matches(
                                    ts0,
                                    cs[k] as int,
                                    db.interner@,
                                    tys@[k].0 as int,
                                ));
                            }
                        }
                    }
                }
                i = i + 1;
            }
            let ghost db3 = *db;
            let r = db.intern(
                TyData::Function {
                    opt: opt2,
                    function: FunctionType { return_type: rt, params: tys },
                },
            );
            proof {
                lemma_state_below_mono(*st, db.interner@.len() as int - 1, db.interner@.len() as int);
                if fuel >= t + 1 {
                    assert(crate::types::type_children_below(ts0[t as int], t as int));
                    assert(crate::types::type_children(ts0[t as int])[0] == rt_idx);
                    lemma_declared_matches_extend(
                        ts0,
                        rt_idx as int,
                        db3.interner@,
                        db.interner@,
                        rt.0 as int,
                    );
                    assert forall|k: int| 0 <= k < cs.len() implies declared_matches(
                        ts0,
                        (#[trigger] crate::types::type_children(ts0[t as int])[k + 1]) as int,
                        db.interner@,
                        tys@[k].0 as int,
                    ) by {
                        assert(crate::types::type_children(ts0[t as int])[k + 1] == cs[k]);
                        lemma_declared_matches_extend(
                            ts0,
                            cs[k] as int,
                            db3.interner@,
                            db.interner@,
                            tys@[k].0 as int,
                        );
                    }
                    assert(declared_matches(ts0, t as int, db.interner@, r.0 as int));
                }
            }
            return r;
        },
        _ => {
            return db.registry.error;
        },
    }
}

/// Type the application of an already-typed callee expression: the
/// callee must have a function type whose parameters accept the
/// argument types; anything else is a structural mismatch.
fn apply_type(
    db: &mut Db,
    st: &mut TypingState,
    ft: Ty,
    arg_tys: &Vec<Ty>,
    item: usize,
    e: usize,
) -> (r: Ty)
    requires
        engine_pre(*old(db), *old(st)),
        ft.0 < old(db).interner@.len(),
        forall|k: int| 0 <= k < arg_tys@.len() ==> (#[trigger] arg_tys@[k]).0
            < old(db).interner@.len(),
    ensures
        engine_post(*old(db), *final(db), *old(st), *final(st)),
        *final(db) == *old(db),
        final(st).patterns@ == old(st).patterns@,
        r.0 < final(db).interner@.len(),
{
    proof {
        lemma_prefix_refl(db.interner@);
        lemma_prefix_refl(st.diagnostics@);
        assert(crate::ty::arena_inv(db.interner@));
        assert(crate::ty::ty_children_below(db.interner@[ft.0 as int], ft.0 as int));
    }
    let shape: Option<(Ty, Vec<Ty>)> = match db.interner.get(ft) {
        TyData::Function { function, .. } => {
            Some((function.return_type, crate::ty::copy_tys(&function.params)))
        },
        _ => None,
    };
    let is_err = matches!(db.interner.get(ft), TyData::Error);
    match shape {
        Some((rt, params)) => {
            if params.len() != arg_tys.len() {
                record_diagnostic(
                    st,
                    Error::StructuralTypeMismatch {
                        expression: ExpressionRef { item, expression: e },
                    },
                );
                return db.registry.error;
            }
            let mut i: usize = 0;
            let mut ok: bool = true;
            while i < params.len()
                invariant
                    db.wf(),
                    ft.0 < db.interner@.len(),
                    db.interner@[ft.0 as int] matches TyData::Function { function: g, .. }
                        && g.params@ == params@,
                    forall|k: int| 0 <= k < arg_tys@.len() ==> (#[trigger] arg_tys@[k]).0
                        < db.interner@.len(),
                    params@.len() == arg_tys@.len(),
                    i <= params@.len(),
                decreases params@.len() - i,
            {
                proof {
                    assert(crate::ty::ty_children_below(db.interner@[ft.0 as int], ft.0 as int));
                }
                let s = db.interner.is_subtype(arg_tys[i], params[i]);
                ok = ok && s;
                i = i + 1;
            }
            if ok {
                proof {
                    assert(crate::ty::ty_children_below(db.interner@[ft.0 as int], ft.0 as int));
                }
                rt
            } else {
                record_diagnostic(
                    st,
                    Error::StructuralTypeMismatch {
                        expression: ExpressionRef { item, expression: e },
                    },
                );
                db.registry.error
            }
        },
        None => {
            if !is_err {
                record_diagnostic(
                    st,
                    Error::StructuralTypeMismatch {
                        expression: ExpressionRef { item, expression: e },
                    },
                );
            }
            db.registry.error
        },
    }
}

/// Compute and record the type of an expression.
///
/// Literals answer with the registry's primitive types. Identifiers
/// resolve in scope — parameters first, then top-level declarations —
/// and record their resolution; an identifier that resolves to nothing
/// reports one unresolved-name diagnostic and answers with the error
/// type. Calls of an overloaded name select among the overloads; other
/// structure is typed by recursion and composed structurally. Every
/// path records the computed type for the expression before answering.
#[verifier::rlimit(80)]
pub fn type_expression(
    db: &mut Db,
    st: &mut TypingState,
    mode: TypingMode,
    item: usize,
    e: usize,
    fuel: u128,
) -> (r: Ty)
    requires
        engine_pre(*old(db), *old(st)),
        (item as int) < old(db).model.items@.len(),
        (e as int) < old(db).model.items@[item as int].data.expressions@.len(),
    ensures
        engine_post(*old(db), *final(db), *old(st), *final(st)),
        r.0 < final(db).interner@.len(),
        final(st).expressions@.contains_key((item as int, e as int)),
        final(st).expressions@[(item as int, e as int)] == r,
        ({
            let node = old(db).model.items@[item as int].data.expressions@[e as int];
            &&& (node is BooleanLiteral ==> r == old(db).registry.par_bool && final(st).diagnostics@ == old(st).diagnostics@)
            &&& (node is IntegerLiteral ==> r == old(db).registry.par_int && final(st).diagnostics@
                == old(st).diagnostics@)
            &&& (node is FloatLiteral ==> r == old(db).registry.par_float && final(st).diagnostics@
                == old(st).diagnostics@)
            &&& (node is StringLiteral ==> r == old(db).registry.string && final(st).diagnostics@
                == old(st).diagnostics@)
            &&& (node matches Expression::Identifier(name) ==> (!name_in_scope(
                old(db).model,
                item as int,
                name,
            ) ==> r == old(db).registry.error && final(st).diagnostics@ == old(st).diagnostics@.push(
                Error::UnresolvedName { expression: ExpressionRef { item, expression: e }, name },
            )))
        }),
        ({
            let node = old(db).model.items@[item as int].data.expressions@[e as int];
            node matches Expression::Identifier(name) ==> (name_in_scope(
                old(db).model,
                item as int,
                name,
            ) ==> final(st).identifier_resolution@.contains_key((item as int, e as int)))
        }),
        mode == TypingMode::Signature ==> cache_frame(*old(db), *final(db)),
        no_new_computing(*old(st), *final(st)),
    decreases fuel, 3int,
{
    let ghost db0 = *old(db);
    let ghost st0 = *old(st);
    proof {
        assert(db.model.items@[item as int].wf());
        lemma_prefix_refl(db.interner@);
        lemma_prefix_refl(st.diagnostics@);
    }
    match &db.model.items[item].data.expressions[e] {
        Expression::BooleanLiteral(_) => {
            let r = db.registry.par_bool;
            record_expression(st, item, e, r, Ghost(db.interner@.len() as int));
            return r;
        },
        Expression::IntegerLiteral(_) => {
            let r = db.registry.par_int;
            record_expression(st, item, e, r, Ghost(db.interner@.len() as int));
            return r;
        },
        Expression::FloatLiteral => {
            let r = db.registry.par_float;
            record_expression(st, item, e, r, Ghost(db.interner@.len() as int));
            return r;
        },
        Expression::StringLiteral => {
            let r = db.registry.string;
            record_expression(st, item, e, r, Ghost(db.interner@.len() as int));
            return r;
        },
        Expression::Missing => {
            let r = db.registry.error;
            record_expression(st, item, e, r, Ghost(db.interner@.len() as int));
            return r;
        },
        Expression::Identifier(name) => {
            let nm = *name;
            match resolve_name(&db.model, item, nm) {
                Some(p) => {
                    record_identifier_resolution(st, item, e, p);
                    if fuel == 0 {
                        let r = db.registry.error;
                        record_expression(st, item, e, r, Ghost(db.interner@.len() as int));
                        proof {
                            assert(name_in_scope(db0.model, item as int, nm));
                        }
                        return r;
                    }
                    let ghost stq = *st;
                    let pt = type_pattern_ref(db, st, mode, p, fuel - 1);
                    let ghost db2 = *db;
                    let ghost st2 = *st;
                    let r: Ty = match pt {
                        PatternTy::Variable(t2) => t2,
                        PatternTy::Argument(t2) => t2,
                        PatternTy::EnumAtom(t2) => t2,
                        PatternTy::Destructuring(t2) => t2,
                        PatternTy::Function(f) => {
                            proof {
                                assert(entry_below(f, db.interner@.len() as int));
                            }
                            db.intern(
                                TyData::Function { opt: OptType::NonOpt, function: f.overload },
                            )
                        },
                        _ => db.registry.error,
                    };
                    proof {
                        lemma_post_trans(db0, db2, *db, st0, st2, *st);
                        lemma_no_new_computing_refl(st0, stq);
                        lemma_no_new_computing_refl(st2, *st);
                        lemma_no_new_computing_trans(stq, st2, *st);
                        lemma_no_new_computing_trans(st0, stq, *st);
                        lemma_state_below_mono(
                            *st,
                            db2.interner@.len() as int,
                            db.interner@.len() as int,
                        );
                        assert(name_in_scope(db0.model, item as int, nm));
                    }
                    record_expression(st, item, e, r, Ghost(db.interner@.len() as int));
                    return r;
                },
                None => {
                    record_diagnostic(
                        st,
                        Error::UnresolvedName {
                            expression: ExpressionRef { item, expression: e },
                            name: nm,
                        },
                    );
                    let r = db.registry.error;
                    record_expression(st, item, e, r, Ghost(db.interner@.len() as int));
                    return r;
                },
            }
        },
        Expression::Call { function, arguments } => {
            let f_idx = *function;
            let args = copy_indices(arguments);
            proof {
                assert(crate::model::expr_children_below(
                    db.model.items@[item as int].data.expressions@[e as int],
                    e as int,
                ));
            }
            if fuel == 0 {
                let r = db.registry.error;
                record_expression(st, item, e, r, Ghost(db.interner@.len() as int));
                return r;
            }
            // Type the arguments first
            let ghost ags = args@;
            let mut arg_tys: Vec<Ty> = Vec::new();
            let mut i: usize = 0;
            while i < args.len()
                invariant
                    engine_pre(*db, *st),
                    engine_post(db0, *db, st0, *st),
                    no_new_computing(st0, *st),
                    mode == TypingMode::Signature ==> cache_frame(db0, *db),
                    db.model == db0.model,
                    (item as int) < db.model.items@.len(),
                    args@ == ags,
                    forall|k: int|
                        0 <= k < ags.len() ==> (#[trigger] ags[k] as int)
                            < db.model.items@[item as int].data.expressions@.len(),
                    i <= ags.len(),
                    arg_tys@.len() == i,
                    forall|k: int| 0 <= k < i ==> (#[trigger] arg_tys@[k]).0
                        < db.interner@.len(),
                    fuel >= 1,
                decreases ags.len() - i,
            {
                let ghost dbp = *db;
                let ghost stp = *st;
                let at = type_expression(db, st, mode, item, args[i], fuel - 1);
                arg_tys.push(at);
                proof {
                    lemma_post_trans(db0, dbp, *db, st0, stp, *st);
                    lemma_no_new_computing_trans(st0, stp, *st);
                }
                i = i + 1;
            }
            // An identifier callee may name overloaded functions
            let callee_name: Option<u32> = match &db.model.items[item].data.expressions[f_idx] {
                Expression::Identifier(n2) => Some(*n2),
                _ => None,
            };
            if let Some(nm) = callee_name {
                let mut cands: Vec<FunctionEntry> = Vec::new();
                let mut crefs: Vec<PatternRef> = Vec::new();
                let mut j: usize = 0;
                while j < db.model.items.len()
                    invariant
                        engine_pre(*db, *st),
                        engine_post(db0, *db, st0, *st),
                    no_new_computing(st0, *st),
                    mode == TypingMode::Signature ==> cache_frame(db0, *db),
                        db.model == db0.model,
                        (item as int) < db.model.items@.len(),
                        j <= db.model.items@.len(),
                        crefs@.len() == cands@.len(),
                        forall|k: int|
                            0 <= k < cands@.len() ==> crate::overload::entry_tys_valid(
                                db.interner@,
                                #[trigger] cands@[k],
                            ),
                        forall|k: int| 0 <= k < arg_tys@.len() ==> (#[trigger] arg_tys@[k]).0
                            < db.interner@.len(),
                        fuel >= 1,
                    decreases db.model.items@.len() - j,
                {
                    let fpat: Option<usize> = match &db.model.items[j].kind {
                        ItemKind::Function { pattern, .. } => Some(*pattern),
                        _ => None,
                    };
                    if let Some(fp) = fpat {
                        proof {
                            assert(db.model.items@[j as int].wf());
                        }
                        let named: bool = match &db.model.items[j].data.patterns[fp] {
                            Pattern::Identifier(n3) => *n3 == nm,
                            _ => false,
                        };
                        if named {
                            let ghost dbp = *db;
                            let ghost stp = *st;
                            let pt = type_pattern_ref(
                                db,
                                st,
                                mode,
                                PatternRef { item: j, pattern: fp },
                                fuel - 1,
                            );
                            proof {
                                lemma_post_trans(db0, dbp, *db, st0, stp, *st);
                    lemma_no_new_computing_trans(st0, stp, *st);
                            }
                            if let PatternTy::Function(fe) = pt {
                                proof {
                                    assert(entry_below(fe, db.interner@.len() as int));
                                }
                                cands.push(fe);
                                crefs.push(PatternRef { item: j, pattern: fp });
                            }
                        }
                    }
                    j = j + 1;
                }
                if cands.len() > 0 {
                    let res = resolve_overload(&db.interner, &cands, &arg_tys);
                    match res {
                        OverloadResult::Selected(ci) => {
                            record_identifier_resolution(st, item, f_idx, crefs[ci]);
                            let fe2 = cands[ci].duplicate();
                            proof {
                                assert(crate::overload::entry_tys_valid(
                                    db.interner@,
                                    cands@[ci as int],
                                ));
                            }
                            let rt = fe2.overload.return_type;
                            let fty = db.intern(
                                TyData::Function { opt: OptType::NonOpt, function: fe2.overload },
                            );
                            proof {
                                lemma_state_below_mono(
                                    *st,
                                    db.interner@.len() as int - 1,
                                    db.interner@.len() as int,
                                );
                            }
                            record_expression(
                                st,
                                item,
                                f_idx,
                                fty,
                                Ghost(db.interner@.len() as int),
                            );
                            record_expression(st, item, e, rt, Ghost(db.interner@.len() as int));
                            proof {
                                lemma_prefix_trans(
                                    st0.diagnostics@,
                                    st.diagnostics@,
                                    st.diagnostics@,
                                );
                            }
                            return rt;
                        },
                        OverloadResult::NoMatching => {
                            record_diagnostic(
                                st,
                                Error::NoMatchingOverload {
                                    expression: ExpressionRef { item, expression: e },
                                    name: nm,
                                },
                            );
                            let r = db.registry.error;
                            record_expression(st, item, e, r, Ghost(db.interner@.len() as int));
                            return r;
                        },
                        OverloadResult::Ambiguous => {
                            record_diagnostic(
                                st,
                                Error::AmbiguousOverload {
                                    expression: ExpressionRef { item, expression: e },
                                    name: nm,
                                },
                            );
                            let r = db.registry.error;
                            record_expression(st, item, e, r, Ghost(db.interner@.len() as int));
                            return r;
                        },
                    }
                } else {
                    let ghost dbp = *db;
                    let ghost stp = *st;
                    let ft = type_expression(db, st, mode, item, f_idx, fuel - 1);
                    proof {
                        lemma_post_trans(db0, dbp, *db, st0, stp, *st);
                    lemma_no_new_computing_trans(st0, stp, *st);
                    }
                    let ghost db2 = *db;
                    let ghost st2 = *st;
                    let r = apply_type(db, st, ft, &arg_tys, item, e);
                    proof {
                        lemma_post_trans(db0, db2, *db, st0, st2, *st);
                lemma_no_new_computing_trans(st0, st2, *st);
                    }
                    record_expression(st, item, e, r, Ghost(db.interner@.len() as int));
                    return r;
                }
            } else {
                let ghost dbp = *db;
                let ghost stp = *st;
                let ft = type_expression(db, st, mode, item, f_idx, fuel - 1);
                proof {
                    lemma_post_trans(db0, dbp, *db, st0, stp, *st);
                    lemma_no_new_computing_trans(st0, stp, *st);
                }
                let ghost db2 = *db;
                let ghost st2 = *st;
                let r = apply_type(db, st, ft, &arg_tys, item, e);
                proof {
                    lemma_post_trans(db0, db2, *db, st0, st2, *st);
                lemma_no_new_computing_trans(st0, st2, *st);
                }
                record_expression(st, item, e, r, Ghost(db.interner@.len() as int));
                return r;
            }
        },
        Expression::TupleLiteral(es) => {
            let elems = copy_indices(es);
            proof {
                assert(crate::model::expr_children_below(
                    db.model.items@[item as int].data.expressions@[e as int],
                    e as int,
                ));
            }
            if fuel == 0 {
                let r = db.registry.error;
                record_expression(st, item, e, r, Ghost(db.interner@.len() as int));
                return r;
            }
            let ghost ags = elems@;
            let mut tys: Vec<Ty> = Vec::new();
            let mut i: usize = 0;
            while i < elems.len()
                invariant
                    engine_pre(*db, *st),
                    engine_post(db0, *db, st0, *st),
                    no_new_computing(st0, *st),
                    mode == TypingMode::Signature ==> cache_frame(db0, *db),
                    db.model == db0.model,
                    (item as int) < db.model.items@.len(),
                    elems@ == ags,
                    forall|k: int|
                        0 <= k < ags.len() ==> (#[trigger] ags[k] as int)
                            < db.model.items@[item as int].data.expressions@.len(),
                    i <= ags.len(),
                    tys@.len() == i,
                    forall|k: int| 0 <= k < i ==> (#[trigger] tys@[k]).0 < db.interner@.len(),
                    fuel >= 1,
                decreases ags.len() - i,
            {
                let ghost dbp = *db;
                let ghost stp = *st;
                let at = type_expression(db, st, mode, item, elems[i], fuel - 1);
                tys.push(at);
                proof {
                    lemma_post_trans(db0, dbp, *db, st0, stp, *st);
                    lemma_no_new_computing_trans(st0, stp, *st);
                }
                i = i + 1;
            }
            let r = db.intern(TyData::Tuple { opt: OptType::NonOpt, fields: tys });
            proof {
                lemma_state_below_mono(*st, db.interner@.len() as int - 1, db.interner@.len() as int);
            }
            record_expression(st, item, e, r, Ghost(db.interner@.len() as int));
            return r;
        },
        Expression::ArrayLiteral(es) => {
            let elems = copy_indices(es);
            proof {
                assert(crate::model::expr_children_below(
                    db.model.items@[item as int].data.expressions@[e as int],
                    e as int,
                ));
            }
            if fuel == 0 {
                let r = db.registry.error;
                record_expression(st, item, e, r, Ghost(db.interner@.len() as int));
                return r;
            }
            if elems.len() == 0 {
                let r = db.registry.array_of_bottom;
                record_expression(st, item, e, r, Ghost(db.interner@.len() as int));
                return r;
            }
            let ghost ags = elems@;
            let mut acc: Ty = db.registry.bottom;
            let mut i: usize = 0;
            while i < elems.len()
                invariant
                    engine_pre(*db, *st),
                    engine_post(db0, *db, st0, *st),
                    no_new_computing(st0, *st),
                    mode == TypingMode::Signature ==> cache_frame(db0, *db),
                    db.model == db0.model,
                    (item as int) < db.model.items@.len(),
                    elems@ == ags,
                    forall|k: int|
                        0 <= k < ags.len() ==> (#[trigger] ags[k] as int)
                            < db.model.items@[item as int].data.expressions@.len(),
                    i <= ags.len(),
                    acc.0 < db.interner@.len(),
                    fuel >= 1,
                decreases ags.len() - i,
            {
                let ghost dbp = *db;
                let ghost stp = *st;
                let at = type_expression(db, st, mode, item, elems[i], fuel - 1);
                proof {
                    lemma_post_trans(db0, dbp, *db, st0, stp, *st);
                    lemma_no_new_computing_trans(st0, stp, *st);
                }
                match lub_ty(db, acc, at) {
                    Some(m) => {
                        acc = m;
                    },
                    None => {
                        record_diagnostic(
                            st,
                            Error::StructuralTypeMismatch {
                                expression: ExpressionRef { item, expression: elems[i] },
                            },
                        );
                        acc = db.registry.error;
                    },
                }
                i = i + 1;
            }
            let dims = db.registry.par_int;
            let r = db.intern(TyData::Array { opt: OptType::NonOpt, dimensions: dims, element: acc });
            proof {
                lemma_state_below_mono(*st, db.interner@.len() as int - 1, db.interner@.len() as int);
            }
            record_expression(st, item, e, r, Ghost(db.interner@.len() as int));
            return r;
        },
        Expression::SetLiteral(es) => {
            let elems = copy_indices(es);
            proof {
                assert(crate::model::expr_children_below(
                    db.model.items@[item as int].data.expressions@[e as int],
                    e as int,
                ));
            }
            if fuel == 0 {
                let r = db.registry.error;
                record_expression(st, item, e, r, Ghost(db.interner@.len() as int));
                return r;
            }
            if elems.len() == 0 {
                let r = db.registry.set_of_bottom;
                record_expression(st, item, e, r, Ghost(db.interner@.len() as int));
                return r;
            }
            let ghost ags = elems@;
            let mut acc: Ty = db.registry.bottom;
            let mut i: usize = 0;
            while i < elems.len()
                invariant
                    engine_pre(*db, *st),
                    engine_post(db0, *db, st0, *st),
                    no_new_computing(st0, *st),
                    mode == TypingMode::Signature ==> cache_frame(db0, *db),
                    db.model == db0.model,
                    (item as int) < db.model.items@.len(),
                    elems@ == ags,
                    forall|k: int|
                        0 <= k < ags.len() ==> (#[trigger] ags[k] as int)
                            < db.model.items@[item as int].data.expressions@.len(),
                    i <= ags.len(),
                    acc.0 < db.interner@.len(),
                    fuel >= 1,
                decreases ags.len() - i,
            {
                let ghost dbp = *db;
                let ghost stp = *st;
                let at = type_expression(db, st, mode, item, elems[i], fuel - 1);
                proof {
                    lemma_post_trans(db0, dbp, *db, st0, stp, *st);
                    lemma_no_new_computing_trans(st0, stp, *st);
                }
                match lub_ty(db, acc, at) {
                    Some(m) => {
                        acc = m;
                    },
                    None => {
                        record_diagnostic(
                            st,
                            Error::StructuralTypeMismatch {
                                expression: ExpressionRef { item, expression: elems[i] },
                            },
                        );
                        acc = db.registry.error;
                    },
                }
                i = i + 1;
            }
            let r = db.intern(
                TyData::SetOf { inst: VarType::Par, opt: OptType::NonOpt, element: acc },
            );
            proof {
                lemma_state_below_mono(*st, db.interner@.len() as int - 1, db.interner@.len() as int);
            }
            record_expression(st, item, e, r, Ghost(db.interner@.len() as int));
            return r;
        },
        Expression::TupleAccess { tuple, field } => {
            let t_idx = *tuple;
            let fld = *field;
            proof {
                assert(crate::model::expr_children_below(
                    db.model.items@[item as int].data.expressions@[e as int],
                    e as int,
                ));
            }
            if fuel == 0 {
                let r = db.registry.error;
                record_expression(st, item, e, r, Ghost(db.interner@.len() as int));
                return r;
            }
            let ghost dbp = *db;
            let ghost stp = *st;
            let tt = type_expression(db, st, mode, item, t_idx, fuel - 1);
            proof {
                lemma_post_trans(db0, dbp, *db, st0, stp, *st);
                    lemma_no_new_computing_trans(st0, stp, *st);
                assert(crate::ty::ty_children_below(db.interner@[tt.0 as int], tt.0 as int));
            }
            let picked: Option<Ty> = match db.interner.get(tt) {
                TyData::Tuple { fields, .. } => {
                    if 1 <= fld && (fld as usize) <= fields.len() {
                        Some(fields[(fld - 1) as usize])
                    } else {
                        None
                    }
                },
                _ => None,
            };
            let is_err = matches!(db.interner.get(tt), TyData::Error);
            let r: Ty = match picked {
                Some(t2) => t2,
                None => {
                    if !is_err {
                        record_diagnostic(
                            st,
                            Error::StructuralTypeMismatch {
                                expression: ExpressionRef { item, expression: e },
                            },
                        );
                    }
                    db.registry.error
                },
            };
            record_expression(st, item, e, r, Ghost(db.interner@.len() as int));
            return r;
        },
        Expression::ArrayAccess { collection, index } => {
            let c_idx = *collection;
            let i_idx = *index;
            proof {
                assert(crate::model::expr_children_below(
                    db.model.items@[item as int].data.expressions@[e as int],
                    e as int,
                ));
            }
            if fuel == 0 {
                let r = db.registry.error;
                record_expression(st, item, e, r, Ghost(db.interner@.len() as int));
                return r;
            }
            let ghost dbp = *db;
            let ghost stp = *st;
            let ct = type_expression(db, st, mode, item, c_idx, fuel - 1);
            proof {
                lemma_post_trans(db0, dbp, *db, st0, stp, *st);
                    lemma_no_new_computing_trans(st0, stp, *st);
            }
            let ghost db2 = *db;
            let ghost st2 = *st;
            let it2 = type_expression(db, st, mode, item, i_idx, fuel - 1);
            proof {
                lemma_post_trans(db0, db2, *db, st0, st2, *st);
                lemma_no_new_computing_trans(st0, st2, *st);
                assert(crate::ty::ty_children_below(db.interner@[ct.0 as int], ct.0 as int));
            }
            let shape: Option<(Ty, Ty)> = match db.interner.get(ct) {
                TyData::Array { dimensions, element, .. } => Some((*dimensions, *element)),
                _ => None,
            };
            let is_err = matches!(db.interner.get(ct), TyData::Error);
            let r: Ty = match shape {
                Some((dims, elem)) => {
                    if db.interner.is_subtype(it2, dims) {
                        elem
                    } else {
                        record_diagnostic(
                            st,
                            Error::StructuralTypeMismatch {
                                expression: ExpressionRef { item, expression: i_idx },
                            },
                        );
                        db.registry.error
                    }
                },
                None => {
                    if !is_err {
                        record_diagnostic(
                            st,
                            Error::StructuralTypeMismatch {
                                expression: ExpressionRef { item, expression: e },
                            },
                        );
                    }
                    db.registry.error
                },
            };
            record_expression(st, item, e, r, Ghost(db.interner@.len() as int));
            return r;
        },
    }
}

/// Type a pattern, or look the type up if already known.
///
/// The first step is the cache and the cycle guard, shared by both
/// modes: an existing non-`Computing` entry is answered unchanged, with
/// no diagnostic and no new state; an existing `Computing` entry is a
/// self-referential declaration and answers one cyclic-dependency
/// diagnostic and the error type. Past the guard, signature mode
/// inserts `Computing`, types the declaration or function signature,
/// and replaces the marker with the result; body mode reads the
/// pattern's type from its item's cached signature, computing that
/// signature first if the cache has no entry.
#[verifier::rlimit(80)]
pub fn type_pattern_ref(
    db: &mut Db,
    st: &mut TypingState,
    mode: TypingMode,
    p: PatternRef,
    fuel: u128,
) -> (r: PatternTy)
    requires
        engine_pre(*old(db), *old(st)),
        (p.item as int) < old(db).model.items@.len(),
        (p.pattern as int) < old(db).model.items@[p.item as int].data.patterns@.len(),
    ensures
        engine_post(*old(db), *final(db), *old(st), *final(st)),
        pattern_ty_below(r, final(db).interner@.len() as int),
        ({
            let pk = (p.item as int, p.pattern as int);
            old(st).patterns@.contains_key(pk) && !(old(st).patterns@[pk] is Computing)
                ==> *final(db) == *old(db) && final(st).patterns@ == old(st).patterns@ && final(st).expressions@ == old(st).expressions@ && final(st).identifier_resolution@ == old(st).identifier_resolution@ && final(st).pattern_resolution@ == old(st).pattern_resolution@ && final(st).diagnostics@ == old(st).diagnostics@
                && pattern_ty_eq(r, old(st).patterns@[pk])
        }),
        ({
            let pk = (p.item as int, p.pattern as int);
            old(st).patterns@.contains_key(pk) && (old(st).patterns@[pk] is Computing) ==> *final(db) == *old(db) && final(st).patterns@ == old(st).patterns@ && final(st).expressions@
                == old(st).expressions@ && final(st).identifier_resolution@ == old(st).identifier_resolution@ && final(st).pattern_resolution@ == old(st).pattern_resolution@ && final(st).diagnostics@ == old(st).diagnostics@.push(
                Error::CyclicTypeDependency { pattern: p },
            ) && (r matches PatternTy::Variable(t) && t == old(db).registry.error)
        }),
        ({
            let pk = (p.item as int, p.pattern as int);
            mode == TypingMode::Signature && !old(st).patterns@.contains_key(pk) && fuel > 0 && (
            old(db).model.items@[p.item as int].kind matches ItemKind::Declaration {
                declared_type,
                pattern,
                definition,
            } && pattern == p.pattern && definition is None && !spec_complete(
                old(db).model.items@[p.item as int].data.types@,
                declared_type as int,
            )) ==> final(st).diagnostics@ == old(st).diagnostics@.push(
                Error::UninferrableAny { pattern: p },
            ) && (r matches PatternTy::Variable(t) && t == old(db).registry.error)
        }),
        ({
            let pk = (p.item as int, p.pattern as int);
            mode == TypingMode::Signature && !old(st).patterns@.contains_key(pk) && fuel > 0 ==> (
            old(db).model.items@[p.item as int].kind matches ItemKind::Declaration {
                declared_type,
                pattern,
                definition,
            } ==> (pattern == p.pattern && !spec_complete(
                old(db).model.items@[p.item as int].data.types@,
                declared_type as int,
            ) ==> (definition matches Some(de) ==> (r matches PatternTy::Variable(t) && final(st).expressions@.contains_key((p.item as int, de as int)) && t == final(st).expressions@[(p.item as int, de as int)] && (
            old(db).model.items@[p.item as int].data.expressions@[de as int] is IntegerLiteral
                ==> t == old(db).registry.par_int && final(st).diagnostics@ == old(st).diagnostics@)
                && (old(db).model.items@[p.item as int].data.expressions@[de as int]
                is BooleanLiteral ==> t == old(db).registry.par_bool && final(st).diagnostics@
                == old(st).diagnostics@)))))
        }),
        mode == TypingMode::Signature ==> cache_frame(*old(db), *final(db)),
        ({
            let pk = (p.item as int, p.pattern as int);
            mode == TypingMode::Signature && fuel > 0 ==> final(st).patterns@.contains_key(pk)
                && (!(old(st).patterns@.contains_key(pk) && old(st).patterns@[pk] is Computing)
                ==> !(final(st).patterns@[pk] is Computing) && pattern_ty_eq(
                r,
                final(st).patterns@[pk],
            ))
        }),
        ({
            let pk = (p.item as int, p.pattern as int);
            let ts = old(db).model.items@[p.item as int].data.types@;
            mode == TypingMode::Signature && !old(st).patterns@.contains_key(pk) && fuel >= ts.len()
                + 2 ==> (old(db).model.items@[p.item as int].kind matches ItemKind::Declaration {
                declared_type,
                pattern,
                definition,
            } ==> (pattern == p.pattern && spec_complete(ts, declared_type as int) ==> (final(st).patterns@[pk] matches PatternTy::Variable(t) && declared_matches(
                ts,
                declared_type as int,
                final(db).interner@,
                t.0 as int,
            ))))
        }),
        ({
            let pk = (p.item as int, p.pattern as int);
            let ts = old(db).model.items@[p.item as int].data.types@;
            mode == TypingMode::Signature && !old(st).patterns@.contains_key(pk) && fuel >= ts.len()
                + 2 ==> (old(db).model.items@[p.item as int].kind matches ItemKind::Function {
                pattern,
                return_type,
                parameters,
                ..
            } ==> (pattern == p.pattern ==> (final(st).patterns@[pk] matches PatternTy::Function(fe)
                && fe.overload.params@.len() == parameters@.len() && declared_matches(
                ts,
                return_type as int,
                final(db).interner@,
                fe.overload.return_type.0 as int,
            ) && (forall|k: int|
                0 <= k < parameters@.len() ==> declared_matches(
                    ts,
                    (#[trigger] parameters@[k]).declared_type as int,
                    final(db).interner@,
                    fe.overload.params@[k].0 as int,
                )))))
        }),
        ({
            let pk = (p.item as int, p.pattern as int);
            let ts = old(db).model.items@[p.item as int].data.types@;
            mode == TypingMode::Signature && !old(st).patterns@.contains_key(pk) && fuel > 0 ==> (
            old(db).model.items@[p.item as int].kind matches ItemKind::Declaration {
                declared_type,
                pattern,
                definition,
            } ==> (pattern == p.pattern && !spec_complete(ts, declared_type as int) ==> ((
            definition is None ==> final(st).patterns@[pk] == PatternTy::Variable(
                old(db).registry.error,
            )) && (definition matches Some(de) ==> (final(st).patterns@[pk] matches
            PatternTy::Variable(t) && final(st).expressions@.contains_key((p.item as int, de as int))
                && t == final(st).expressions@[(p.item as int, de as int)])))))
        }),
        no_new_computing(*old(st), *final(st)),
    decreases fuel, 2int,
{
    let ghost db0 = *old(db);
    let ghost st0 = *old(st);
    proof {
        assert(db.model.items@[p.item as int].wf());
        lemma_prefix_refl(db.interner@);
        lemma_prefix_refl(st.diagnostics@);
    }
    // Cache and cycle guard, shared by both modes
    let mut cached: Option<PatternTy> = None;
    match st.patterns.get(p.item, p.pattern) {
        Some(v) => {
            cached = Some(v.duplicate());
        },
        None => {},
    }
    match cached {
        Some(c) => {
            proof {
                lemma_pattern_ty_eq_below(
                    c,
                    st.patterns@[(p.item as int, p.pattern as int)],
                    db.interner@.len() as int,
                );
            }
            if matches!(c, PatternTy::Computing) {
                record_diagnostic(st, Error::CyclicTypeDependency { pattern: p });
                return PatternTy::Variable(db.registry.error);
            }
            return c;
        },
        None => {},
    }
    match mode {
        TypingMode::Body => {
            if fuel == 0 {
                return PatternTy::Variable(db.registry.error);
            }
            let ghost db1 = *db;
            compute_item_signature(db, p.item, fuel - 1);
            proof {
                lemma_state_below_mono(*st, db1.interner@.len() as int, db.interner@.len() as int);
            }
            let mut out: Option<PatternTy> = None;
            match &db.signatures[p.item] {
                Some(s) => {
                    proof {
                        assert((db.signatures@[p.item as int] matches Some(ss) ==> ss.inv()
                            && ss.below(db.interner@.len() as int)));
                    }
                    match s.patterns.get(p.item, p.pattern) {
                        Some(v) => {
                            let d = v.duplicate();
                            proof {
                                lemma_pattern_ty_eq_below(
                                    d,
                                    *v,
                                    db.interner@.len() as int,
                                );
                            }
                            out = Some(d);
                        },
                        None => {},
                    }
                },
                None => {},
            }
            match out {
                Some(v) => v,
                None => PatternTy::Variable(db.registry.error),
            }
        },
        TypingMode::Signature => {
            if fuel == 0 {
                return PatternTy::Variable(db.registry.error);
            }
            record_declaration(st, p, PatternTy::Computing, Ghost(db.interner@.len() as int));
            let ghost stc = *st;
            let ghost st1 = *st;
            match &db.model.items[p.item].kind {
                ItemKind::Declaration { declared_type, pattern, definition } => {
                    let dt_idx = *declared_type;
                    let pat = *pattern;
                    let def = *definition;
                    if pat == p.pattern {
                        let complete = Type::is_complete(dt_idx, &db.model.items[p.item].data);
                        let ty: Ty;
                        if complete {
                            let ghost db2 = *db;
                            let ghost st2 = *st;
                            ty = type_declared(db, st, mode, p.item, dt_idx, fuel - 1);
                            proof {
                                lemma_post_trans(db0, db2, *db, st0, st2, *st);
                                lemma_no_new_computing_refl(stc, st2);
                                lemma_no_new_computing_trans(stc, st2, *st);
                                let ts = db0.model.items@[p.item as int].data.types@;
                                if fuel >= ts.len() + 2 {
                                    assert((dt_idx as int) < ts.len());
                                    assert(declared_matches(
                                        ts,
                                        dt_idx as int,
                                        db.interner@,
                                        ty.0 as int,
                                    ));
                                }
                            }
                        } else {
                            match def {
                                Some(de) => {
                                    let ghost db2 = *db;
                                    let ghost st2 = *st;
                                    ty = type_expression(db, st, mode, p.item, de, fuel - 1);
                                    proof {
                                        lemma_post_trans(db0, db2, *db, st0, st2, *st);
                                        lemma_no_new_computing_refl(stc, st2);
                                        lemma_no_new_computing_trans(stc, st2, *st);
                                    }
                                },
                                None => {
                                    record_diagnostic(st, Error::UninferrableAny { pattern: p });
                                    ty = db.registry.error;
                                    proof {
                                        lemma_no_new_computing_refl(stc, *st);
                                    }
                                },
                            }
                        }
                        let ghost stm = *st;
                        record_declaration(
                            st,
                            p,
                            PatternTy::Variable(ty),
                            Ghost(db.interner@.len() as int),
                        );
                        proof {
                            lemma_computing_replaced(
                                st0,
                                stc,
                                stm,
                                *st,
                                (p.item as int, p.pattern as int),
                                PatternTy::Variable(ty),
                            );
                        }
                        return PatternTy::Variable(ty);
                    } else {
                        let ty = db.registry.error;
                        let ghost stm = *st;
                        proof {
                            lemma_no_new_computing_refl(stc, stm);
                        }
                        record_declaration(
                            st,
                            p,
                            PatternTy::Variable(ty),
                            Ghost(db.interner@.len() as int),
                        );
                        proof {
                            lemma_computing_replaced(
                                st0,
                                stc,
                                stm,
                                *st,
                                (p.item as int, p.pattern as int),
                                PatternTy::Variable(ty),
                            );
                        }
                        return PatternTy::Variable(ty);
                    }
                },
                ItemKind::Function { pattern, return_type, parameters, body } => {
                    let pat = *pattern;
                    let rt_idx = *return_type;
                    let has_body = body.is_some();
                    let params = copy_parameters(parameters);
                    let ghost ps = params@;
                    if pat == p.pattern {
                        let ghost ts = db0.model.items@[p.item as int].data.types@;
                        let ghost db2 = *db;
                        let ghost st2 = *st;
                        let rt = type_declared(db, st, mode, p.item, rt_idx, fuel - 1);
                        proof {
                            lemma_post_trans(db0, db2, *db, st0, st2, *st);
                            lemma_no_new_computing_refl(stc, st2);
                            lemma_no_new_computing_trans(stc, st2, *st);
                            if fuel >= ts.len() + 2 {
                                assert((rt_idx as int) < ts.len());
                            }
                        }
                        let mut ptys: Vec<Ty> = Vec::new();
                        let mut i: usize = 0;
                        while i < params.len()
                            invariant
                                engine_pre(*db, *st),
                                engine_post(db0, *db, st0, *st),
                                no_new_computing(stc, *st),
                                mode == TypingMode::Signature ==> cache_frame(db0, *db),
                                db.model == db0.model,
                                (p.item as int) < db.model.items@.len(),
                                params@ == ps,
                                ts == db0.model.items@[p.item as int].data.types@,
                                crate::types::types_ordered(ts),
                                db.model.items@[p.item as int].kind matches ItemKind::Function {
                                    parameters: qs,
                                    ..
                                } && qs@ == ps,
                                rt.0 < db.interner@.len(),
                                (rt_idx as int) < ts.len(),
                                i <= ps.len(),
                                ptys@.len() == i,
                                forall|k: int| 0 <= k < i ==> (#[trigger] ptys@[k]).0
                                    < db.interner@.len(),
                                fuel >= 1,
                                fuel >= ts.len() + 2 ==> declared_matches(
                                    ts,
                                    rt_idx as int,
                                    db.interner@,
                                    rt.0 as int,
                                ),
                                fuel >= ts.len() + 2 ==> forall|k: int|
                                    0 <= k < i ==> declared_matches(
                                        ts,
                                        (#[trigger] ps[k]).declared_type as int,
                                        db.interner@,
                                        ptys@[k].0 as int,
                                    ),
                            decreases ps.len() - i,
                        {
                            proof {
                                assert(db.model.items@[p.item as int].wf());
                            }
                            let ghost dbp = *db;
                            let ghost stp = *st;
                            let pt_i = type_declared(
                                db,
                                st,
                                mode,
                                p.item,
                                params[i].declared_type,
                                fuel - 1,
                            );
                            proof {
                                lemma_post_trans(db0, dbp, *db, st0, stp, *st);
                                lemma_no_new_computing_trans(stc, stp, *st);
                                if fuel >= ts.len() + 2 {
                                    assert((ps[i as int].declared_type as int) < ts.len());
                                    lemma_declared_matches_extend(
                                        ts,
                                        rt_idx as int,
                                        dbp.interner@,
                                        db.interner@,
                                        rt.0 as int,
                                    );
                                    assert forall|k: int| 0 <= k < i + 1 implies declared_matches(
                                        ts,
                                        (#[trigger] ps[k]).declared_type as int,
                                        db.interner@,
                                        ptys@.push(pt_i)[k].0 as int,
                                    ) by {
                                        if k < i {
                                            lemma_declared_matches_extend(
                                                ts,
                                                ps[k].declared_type as int,
                                                dbp.interner@,
                                                db.interner@,
                                                ptys@[k].0 as int,
                                            );
                                        }
                                    }
                                }
                            }
                            let ghost str2 = *st;
                            record_declaration(
                                st,
                                PatternRef { item: p.item, pattern: params[i].pattern },
                                PatternTy::Argument(pt_i),
                                Ghost(db.interner@.len() as int),
                            );
                            proof {
                                lemma_no_new_computing_insert(
                                    str2,
                                    *st,
                                    (p.item as int, params@[i as int].pattern as int),
                                    PatternTy::Argument(pt_i),
                                );
                                lemma_no_new_computing_trans(stc, str2, *st);
                            }
                            ptys.push(pt_i);
                            i = i + 1;
                        }
                        let entry = FunctionEntry {
                            has_body,
                            overload: FunctionType { return_type: rt, params: ptys },
                        };
                        let stored = entry.duplicate();
                        proof {
                            assert(entry_below(entry, db.interner@.len() as int));
                            assert(entry_below(stored, db.interner@.len() as int));
                        }
                        let ghost stm = *st;
                        record_declaration(
                            st,
                            p,
                            PatternTy::Function(stored),
                            Ghost(db.interner@.len() as int),
                        );
                        proof {
                            lemma_computing_replaced(
                                st0,
                                stc,
                                stm,
                                *st,
                                (p.item as int, p.pattern as int),
                                PatternTy::Function(stored),
                            );
                        }
                        return PatternTy::Function(entry);
                    } else {
                        // A parameter pattern of the function
                        let mut found: Option<usize> = None;
                        let mut i: usize = 0;
                        proof {
                            assert(db.model.items@[p.item as int].wf());
                        }
                        while i < params.len()
                            invariant
                                params@ == ps,
                                i <= ps.len(),
                                (p.item as int) < db.model.items@.len(),
                                db.model.items@[p.item as int].kind matches ItemKind::Function {
                                    parameters: qs,
                                    ..
                                } && qs@ == ps,
                                db.model.wf(),
                                found matches Some(ix) ==> (ix as int)
                                    < db.model.items@[p.item as int].data.types@.len(),
                            decreases ps.len() - i,
                        {
                            proof {
                                assert(db.model.items@[p.item as int].wf());
                            }
                            if found.is_none() && params[i].pattern == p.pattern {
                                found = Some(params[i].declared_type);
                            }
                            i = i + 1;
                        }
                        proof {
                            lemma_no_new_computing_refl(stc, *st);
                        }
                        let res: PatternTy = match found {
                            Some(dt_idx) => {
                                proof {
                                    assert(db.model.items@[p.item as int].wf());
                                }
                                let ghost db2 = *db;
                                let ghost st2 = *st;
                                let ty = type_declared(db, st, mode, p.item, dt_idx, fuel - 1);
                                proof {
                                    lemma_post_trans(db0, db2, *db, st0, st2, *st);
                                    lemma_no_new_computing_refl(stc, st2);
                                    lemma_no_new_computing_trans(stc, st2, *st);
                                }
                                PatternTy::Argument(ty)
                            },
                            None => PatternTy::Variable(db.registry.error),
                        };
                        let stored = res.duplicate();
                        proof {
                            lemma_pattern_ty_eq_below(stored, res, db.interner@.len() as int);
                        }
                        let ghost stm = *st;
                        record_declaration(st, p, stored, Ghost(db.interner@.len() as int));
                        proof {
                            assert(!(stored is Computing));
                            lemma_computing_replaced(
                                st0,
                                stc,
                                stm,
                                *st,
                                (p.item as int, p.pattern as int),
                                stored,
                            );
                        }
                        return res;
                    }
                },
                _ => {
                    let ty = db.registry.error;
                    let ghost stm = *st;
                    proof {
                        lemma_no_new_computing_refl(stc, stm);
                    }
                    record_declaration(
                        st,
                        p,
                        PatternTy::Variable(ty),
                        Ghost(db.interner@.len() as int),
                    );
                    proof {
                        lemma_computing_replaced(
                            st0,
                            stc,
                            stm,
                            *st,
                            (p.item as int, p.pattern as int),
                            PatternTy::Variable(ty),
                        );
                    }
                    return PatternTy::Variable(ty);
                },
            }
        },
    }
}


/// What an item's computed signature maps must hold, by item kind: the
/// declared pattern is typed and not left `Computing`; a complete
/// declared type yields its denotation; an incomplete one takes the
/// initialiser's computed type or, with no initialiser, the error type;
/// a function signature carries the denotations of its declared return
/// and parameter types.
pub open spec fn signature_maps_ok(
    m: Model,
    item: int,
    d: Seq<TyData>,
    reg: TypeRegistry,
    pats: Map<(int, int), PatternTy>,
    exprs: Map<(int, int), Ty>,
) -> bool {
    match m.items@[item].kind {
        ItemKind::Declaration { declared_type, pattern, definition } => {
            let pk = (item, pattern as int);
            let ts = m.items@[item].data.types@;
            &&& pats.contains_key(pk)
            &&& !(pats[pk] is Computing)
            &&& (spec_complete(ts, declared_type as int) ==> (pats[pk] matches PatternTy::Variable(
                t,
            ) && declared_matches(ts, declared_type as int, d, t.0 as int)))
            &&& (!spec_complete(ts, declared_type as int) && definition is None ==> pats[pk]
                == PatternTy::Variable(reg.error))
            &&& ((!spec_complete(ts, declared_type as int) && definition is Some) ==> (definition
                matches Some(de) ==> (pats[pk] matches PatternTy::Variable(t)
                && exprs.contains_key((item, de as int)) && t == exprs[(item, de as int)] && (
                m.items@[item].data.expressions@[de as int] is IntegerLiteral ==> t == reg.par_int)
                    && (m.items@[item].data.expressions@[de as int] is BooleanLiteral ==> t
                    == reg.par_bool))))
        },
        ItemKind::Function { pattern, return_type, parameters, .. } => {
            let pk = (item, pattern as int);
            let ts = m.items@[item].data.types@;
            &&& pats.contains_key(pk)
            &&& (pats[pk] matches PatternTy::Function(fe) && fe.overload.params@.len()
                == parameters@.len() && declared_matches(
                ts,
                return_type as int,
                d,
                fe.overload.return_type.0 as int,
            ) && (forall|k: int|
                0 <= k < parameters@.len() ==> declared_matches(
                    ts,
                    (#[trigger] parameters@[k]).declared_type as int,
                    d,
                    fe.overload.params@[k].0 as int,
                )))
        },
        _ => true,
    }
}

/// What an item's signature diagnostics must hold: an `any` declaration
/// without an initialiser reports exactly the uninferrable-`any` error.
pub open spec fn signature_errors_ok(m: Model, item: int, errs: Seq<Error>) -> bool {
    match m.items@[item].kind {
        ItemKind::Declaration { declared_type, pattern, definition } => {
            let ts = m.items@[item].data.types@;
            &&& (!spec_complete(ts, declared_type as int) && definition is None ==> errs == seq![
                Error::UninferrableAny {
                    pattern: PatternRef { item: item as usize, pattern },
                },
            ])
            &&& (!spec_complete(ts, declared_type as int) ==> (definition matches Some(de) ==> ((
            m.items@[item].data.expressions@[de as int] is IntegerLiteral
                || m.items@[item].data.expressions@[de as int] is BooleanLiteral) ==> errs.len()
                == 0)))
        },
        _ => true,
    }
}

/// The map-free part of the body error guarantees: a constraint over a
/// boolean literal checks cleanly, one over an integer literal reports
/// exactly the structural mismatch.
pub open spec fn body_literal_errors_ok(m: Model, item: int, errs: Seq<Error>) -> bool {
    match m.items@[item].kind {
        ItemKind::Constraint { expression } => {
            let node = m.items@[item].data.expressions@[expression as int];
            &&& (node is BooleanLiteral ==> errs.len() == 0)
            &&& (node is IntegerLiteral ==> errs == seq![
                Error::StructuralTypeMismatch {
                    expression: ExpressionRef { item: item as usize, expression },
                },
            ])
        },
        _ => true,
    }
}

/// What an item's computed body maps must hold: every expression the
/// item's kind brings to checking is typed and recorded.
/// What the body maps must record for one checked root expression: its
/// type is present; a literal root carries exactly its registry type;
/// an identifier root carries its recorded resolution, or the error
/// type when the name is not in scope.
pub open spec fn root_expr_ok(
    m: Model,
    item: int,
    e: int,
    reg: TypeRegistry,
    exprs: Map<(int, int), Ty>,
    id_res: Map<(int, int), PatternRef>,
) -> bool {
    let node = m.items@[item].data.expressions@[e];
    &&& exprs.contains_key((item, e))
    &&& (node is IntegerLiteral ==> exprs[(item, e)] == reg.par_int)
    &&& (node is BooleanLiteral ==> exprs[(item, e)] == reg.par_bool)
    &&& (node is StringLiteral ==> exprs[(item, e)] == reg.string)
    &&& (node matches Expression::Identifier(nm) ==> (name_in_scope(m, item, nm)
        ==> id_res.contains_key((item, e))) && (!name_in_scope(m, item, nm) ==> exprs[(item, e)]
        == reg.error))
}

/// The weaker form for a root that other roots of the same item are
/// typed after: the entry and any identifier resolution are present,
/// but the final value is not pinned (a later root could retype a
/// shared subexpression).
pub open spec fn root_expr_seen(
    m: Model,
    item: int,
    e: int,
    exprs: Map<(int, int), Ty>,
    id_res: Map<(int, int), PatternRef>,
) -> bool {
    let node = m.items@[item].data.expressions@[e];
    &&& exprs.contains_key((item, e))
    &&& (node matches Expression::Identifier(nm) ==> (name_in_scope(m, item, nm)
        ==> id_res.contains_key((item, e))))
}

/// What an item's computed body maps must hold: every expression the
/// item's kind brings to checking is typed and recorded, with literal
/// and identifier roots pinned.
pub open spec fn body_maps_ok(
    m: Model,
    item: int,
    reg: TypeRegistry,
    exprs: Map<(int, int), Ty>,
    id_res: Map<(int, int), PatternRef>,
) -> bool {
    match m.items@[item].kind {
        ItemKind::Declaration { definition, .. } => (definition matches Some(de) ==> root_expr_ok(
            m,
            item,
            de as int,
            reg,
            exprs,
            id_res,
        )),
        ItemKind::Constraint { expression } => root_expr_ok(
            m,
            item,
            expression as int,
            reg,
            exprs,
            id_res,
        ),
        ItemKind::Assignment { assignee, definition } => root_expr_seen(
            m,
            item,
            assignee as int,
            exprs,
            id_res,
        ) && root_expr_ok(m, item, definition as int, reg, exprs, id_res),
        ItemKind::Output { expression } => root_expr_ok(
            m,
            item,
            expression as int,
            reg,
            exprs,
            id_res,
        ),
        ItemKind::Function { body, .. } => (body matches Some(b) ==> root_expr_ok(
            m,
            item,
            b as int,
            reg,
            exprs,
            id_res,
        )),
    }
}

/// What an item's body diagnostics must hold: a constraint over a
/// boolean literal checks cleanly, one over an integer literal reports
/// exactly the structural mismatch.
pub open spec fn body_errors_ok(
    m: Model,
    item: int,
    d: Seq<TyData>,
    reg: TypeRegistry,
    exprs: Map<(int, int), Ty>,
    errs: Seq<Error>,
) -> bool {
    match m.items@[item].kind {
        ItemKind::Constraint { expression } => {
            let node = m.items@[item].data.expressions@[expression as int];
            &&& (node is BooleanLiteral ==> errs.len() == 0)
            &&& (node is IntegerLiteral ==> errs == seq![
                Error::StructuralTypeMismatch {
                    expression: ExpressionRef { item: item as usize, expression },
                },
            ])
            &&& (exprs.contains_key((item, expression as int)) && !spec_subtype(
                d,
                exprs[(item, expression as int)].0 as int,
                reg.var_bool.0 as int,
            ) ==> errs.contains(
                Error::StructuralTypeMismatch {
                    expression: ExpressionRef { item: item as usize, expression },
                },
            ))
        },
        ItemKind::Output { expression } => {
            exprs.contains_key((item, expression as int)) && !spec_subtype(
                d,
                exprs[(item, expression as int)].0 as int,
                reg.string.0 as int,
            ) && !spec_subtype(
                d,
                exprs[(item, expression as int)].0 as int,
                reg.array_of_string.0 as int,
            ) ==> errs.contains(
                Error::StructuralTypeMismatch {
                    expression: ExpressionRef { item: item as usize, expression },
                },
            )
        },
        _ => true,
    }
}

/// Run one item's signature typing in a fresh state.
fn signature_collect(db: &mut Db, item: usize, fuel: u128) -> (r: (
    crate::signature::SignatureTypes,
    Vec<Error>,
))
    requires
        old(db).wf(),
        (item as int) < old(db).model.items@.len(),
    ensures
        final(db).wf(),
        final(db).model == old(db).model,
        final(db).registry == old(db).registry,
        old(db).interner@.is_prefix_of(final(db).interner@),
        cache_frame(*old(db), *final(db)),
        r.0.inv(),
        r.0.below(final(db).interner@.len() as int),
        fuel >= 8 + 2 * (old(db).model.items@[item as int].data.types@.len() + old(db).model.items@[item as int].data.expressions@.len() + old(db).model.items@[item as int].data.patterns@.len()) ==> signature_maps_ok(
            old(db).model,
            item as int,
            final(db).interner@,
            old(db).registry,
            r.0.patterns@,
            r.0.expressions@,
        ) && signature_errors_ok(old(db).model, item as int, r.1@),
        forall|k: (int, int)|
            r.0.patterns@.contains_key(k) ==> !((#[trigger] r.0.patterns@[k]) is Computing),
    decreases fuel, 0int,
{
    let mut st = TypingState::new(item);
    let ghost db0 = *old(db);
    proof {
        lemma_prefix_refl(db.interner@);
    }
    let main: Option<usize> = match &db.model.items[item].kind {
        ItemKind::Declaration { pattern, .. } => Some(*pattern),
        ItemKind::Function { pattern, .. } => Some(*pattern),
        _ => None,
    };
    if let Some(pat) = main {
        proof {
            assert(db.model.items@[item as int].wf());
        }
        if fuel > 0 {
            let ghost st1 = st;
            let _ = type_pattern_ref(
                db,
                &mut st,
                TypingMode::Signature,
                PatternRef { item, pattern: pat },
                fuel - 1,
            );
            proof {
                let ts = db0.model.items@[item as int].data.types@;
                if fuel >= 8 + 2 * (ts.len() + db0.model.items@[item as int].data.expressions@.len()
                    + db0.model.items@[item as int].data.patterns@.len()) {
                    assert(fuel - 1 >= ts.len() + 2);
                    match db0.model.items@[item as int].kind {
                        ItemKind::Declaration { declared_type, pattern, definition } => {
                            if !spec_complete(ts, declared_type as int) && definition is None {
                                assert(st.diagnostics@ =~= seq![
                                    Error::UninferrableAny {
                                        pattern: PatternRef { item, pattern },
                                    },
                                ]);
                            }
                        },
                        _ => {},
                    }
                }
            }
        }
    }
    let (s, errs) = crate::signature::SignatureTypes::from_state(st);
    (s, errs)
}

/// Compute an item's signature into the cache if the cache has none.
fn compute_item_signature(db: &mut Db, item: usize, fuel: u128)
    requires
        old(db).wf(),
        (item as int) < old(db).model.items@.len(),
    ensures
        final(db).wf(),
        final(db).model == old(db).model,
        final(db).registry == old(db).registry,
        old(db).interner@.is_prefix_of(final(db).interner@),
        final(db).signatures@[item as int] is Some,
    decreases fuel, 1int,
{
    proof {
        lemma_prefix_refl(db.interner@);
    }
    if db.signatures[item].is_some() {
        return ;
    }
    let (s, errs) = signature_collect(db, item, fuel);
    db.store_signature(item, s, errs);
}

/// Get the signature of an item: the types that an identifier referring
/// to it means. The initialiser is ignored except for `any`
/// declarations, whose type it supplies.
pub fn collect_item_signature(db: &mut Db, item: usize) -> (r: (
    crate::signature::SignatureTypes,
    Vec<Error>,
))
    requires
        old(db).wf(),
        (item as int) < old(db).model.items@.len(),
    ensures
        final(db).wf(),
        final(db).model == old(db).model,
        final(db).registry == old(db).registry,
        old(db).interner@.is_prefix_of(final(db).interner@),
        cache_frame(*old(db), *final(db)),
        r.0.inv(),
        r.0.below(final(db).interner@.len() as int),
        signature_maps_ok(
            old(db).model,
            item as int,
            final(db).interner@,
            old(db).registry,
            r.0.patterns@,
            r.0.expressions@,
        ),
        signature_errors_ok(old(db).model, item as int, r.1@),
        forall|k: (int, int)|
            r.0.patterns@.contains_key(k) ==> !((#[trigger] r.0.patterns@[k]) is Computing),
{
    let fuel = db.recursion_budget();
    proof {
        assert(fuel as int >= 8 + 2 * (db.model.items@[item as int].data.types@.len()
            + db.model.items@[item as int].data.expressions@.len()
            + db.model.items@[item as int].data.patterns@.len()));
    }
    signature_collect(db, item, fuel)
}

/// Type-check the expressions of an item other than those its signature
/// uses: initialisers, constraint and output expressions, function
/// bodies, with each checked against what its position requires.
pub fn collect_item_body(db: &mut Db, item: usize) -> (r: (
    crate::body::BodyTypes,
    Vec<Error>,
))
    requires
        old(db).wf(),
        (item as int) < old(db).model.items@.len(),
    ensures
        final(db).wf(),
        final(db).model == old(db).model,
        final(db).registry == old(db).registry,
        old(db).interner@.is_prefix_of(final(db).interner@),
        r.0.inv(),
        r.0.below(final(db).interner@.len() as int),
        body_maps_ok(
            old(db).model,
            item as int,
            old(db).registry,
            r.0.expressions@,
            r.0.identifier_resolution@,
        ),
        body_errors_ok(
            old(db).model,
            item as int,
            final(db).interner@,
            old(db).registry,
            r.0.expressions@,
            r.1@,
        ),
{
    let mut ctx = crate::body::BodyTypeContext::new(item);
    ctx.type_item(db);
    ctx.finish()
}

} // verus!

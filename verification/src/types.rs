//! The declared-type tree: types as written in source.
//!
//! Nodes live in the per-item arena [`crate::model::ItemData::types`] and
//! refer to children by arena index; the arena is lowered bottom-up, so a
//! node's children always lie below it. A tree is *complete* when its
//! reachable subtree contains no [`Type::Any`] node; the [`Type::Missing`]
//! sentinel counts as complete so a lowering error does not cascade into
//! incompleteness errors.
//!
//! All traversals are depth-first walks in preorder, children in
//! declaration order, defined by [`walk_seq`]; the filtered traversals
//! (`any_types`, `anonymous_ty_vars`, `operations`, `primitives`,
//! `expressions`) keep exactly the matching nodes of the walk, in walk
//! order.

use vstd::prelude::*;

use crate::model::ItemData;
use crate::ty::{OptType, PrimitiveType, VarType};

verus! {

/// A declared-type node.
#[derive(Clone, Debug)]
pub enum Type {
    /// Primitive unbounded type
    Primitive {
        /// Inst
        inst: VarType,
        /// Optionality
        opt: OptType,
        /// The base type
        primitive_type: PrimitiveType,
    },
    /// Bounded type or type-inst alias; inst and optionality may be
    /// left to be inferred from the domain
    Bounded {
        /// Inst, if written
        inst: Option<VarType>,
        /// Optionality, if written
        opt: Option<OptType>,
        /// The domain expression
        domain: usize,
    },
    /// Array type
    Array {
        /// Optionality
        opt: OptType,
        /// Type of the dimensions
        dimensions: usize,
        /// Type of the element
        element: usize,
    },
    /// Set type
    SetOf {
        /// Inst
        inst: VarType,
        /// Optionality
        opt: OptType,
        /// Type of the element
        element: usize,
    },
    /// Tuple type
    Tuple {
        /// Optionality
        opt: OptType,
        /// Field types
        fields: Vec<usize>,
    },
    /// Record type
    Record {
        /// Optionality
        opt: OptType,
        /// Field patterns and types
        fields: Vec<(usize, usize)>,
    },
    /// Operation (function) type
    Operation {
        /// Optionality
        opt: OptType,
        /// Return type
        return_type: usize,
        /// Parameter types
        parameter_types: Vec<usize>,
    },
    /// Anonymous type-inst variable
    AnonymousTypeInstVar {
        /// Inst to apply, if written
        inst: Option<VarType>,
        /// Optionality to apply, if written
        opt: Option<OptType>,
        /// The pattern binding the variable
        pattern: usize,
    },
    /// Type inferred entirely from the initialiser
    Any,
    /// Sentinel indicating an error during lowering
    Missing,
}

/// The child type nodes of a node, in declaration order.
pub open spec fn type_children(t: Type) -> Seq<usize> {
    match t {
        Type::Array { dimensions, element, .. } => seq![dimensions, element],
        Type::SetOf { element, .. } => seq![element],
        Type::Tuple { fields, .. } => fields@,
        Type::Record { fields, .. } => fields@.map_values(|p: (usize, usize)| p.1),
        Type::Operation { return_type, parameter_types, .. } => seq![return_type]
            + parameter_types@,
        _ => Seq::empty(),
    }
}

/// All children of the node lie below `bound`.
pub open spec fn type_children_below(t: Type, bound: int) -> bool {
    forall|k: int| 0 <= k < type_children(t).len() ==> #[trigger] type_children(t)[k] < bound
}

/// Every node of the arena refers only to earlier nodes.
pub open spec fn types_ordered(ts: Seq<Type>) -> bool {
    forall|i: int| 0 <= i < ts.len() ==> type_children_below(#[trigger] ts[i], i)
}

/// The node's references out of the type arena are in range: domain
/// expressions and bound patterns exist.
pub open spec fn type_refs_ok(t: Type, n_expr: int, n_pat: int) -> bool {
    match t {
        Type::Bounded { domain, .. } => domain < n_expr,
        Type::Record { fields, .. } => forall|k: int|
            0 <= k < fields@.len() ==> (#[trigger] fields@[k]).0 < n_pat,
        Type::AnonymousTypeInstVar { pattern, .. } => pattern < n_pat,
        _ => true,
    }
}

/// No type node is shared: within a node the children are distinct,
/// and no two nodes refer to the same child. The lowering produces one
/// node per piece of written syntax, so every arena it builds is
/// tree-shaped; the walk of such an arena yields each reachable node
/// exactly once.
pub open spec fn types_tree_shaped(ts: Seq<Type>) -> bool {
    &&& forall|i: int, a: int, b: int|
        0 <= i < ts.len() && 0 <= a < b < type_children(ts[i]).len() ==> (#[trigger] type_children(
            ts[i],
        )[a]) != (#[trigger] type_children(ts[i])[b])
    &&& forall|i: int, j: int, a: int, b: int|
        0 <= i < ts.len() && 0 <= j < ts.len() && i != j && 0 <= a < type_children(ts[i]).len() && 0
            <= b < type_children(ts[j]).len() ==> (#[trigger] type_children(ts[i])[a]) != (
        #[trigger] type_children(ts[j])[b])
}

/// The type arena is lowered bottom-up and refers only to existing
/// expressions and patterns.
pub open spec fn types_wf(ts: Seq<Type>, n_expr: int, n_pat: int) -> bool {
    &&& types_ordered(ts)
    &&& types_tree_shaped(ts)
    &&& forall|i: int| 0 <= i < ts.len() ==> type_refs_ok(#[trigger] ts[i], n_expr, n_pat)
}

/// Whether the subtree rooted at `t` is completely known: it contains no
/// `Any` node.
pub open spec fn spec_complete(ts: Seq<Type>, t: int) -> bool
    decreases t,
    when types_ordered(ts) && 0 <= t < ts.len()
{
    &&& !(ts[t] is Any)
    &&& forall|j: int|
        0 <= j < type_children(ts[t]).len() ==> spec_complete(
            ts,
            #[trigger] type_children(ts[t])[j] as int,
        )
}

/// The nodes of the subtree rooted at `t`, depth-first in preorder,
/// children in declaration order.
pub open spec fn walk_seq(ts: Seq<Type>, t: usize) -> Seq<usize>
    decreases t as int + 1, 0int,
    when types_ordered(ts) && (t as int) < ts.len()
{
    seq![t] + walk_list(ts, type_children(ts[t as int]), t as int)
}

/// The concatenated walks of a list of nodes that all lie below `bound`.
pub open spec fn walk_list(ts: Seq<Type>, s: Seq<usize>, bound: int) -> Seq<usize>
    decreases bound, s.len(),
    when types_ordered(ts) && 0 <= bound <= ts.len() && (forall|k: int|
        0 <= k < s.len() ==> (#[trigger] s[k] as int) < bound)
{
    if s.len() == 0 {
        Seq::empty()
    } else {
        walk_seq(ts, s[0]) + walk_list(ts, s.drop_first(), bound)
    }
}

/// Every node the walk yields is a node of the arena.
pub proof fn lemma_walk_in_range(ts: Seq<Type>, t: usize)
    requires
        types_ordered(ts),
        (t as int) < ts.len(),
    ensures
        forall|j: int| 0 <= j < walk_seq(ts, t).len() ==> (#[trigger] walk_seq(ts, t)[j] as int)
            < ts.len(),
        walk_seq(ts, t).len() >= 1,
        walk_seq(ts, t)[0] == t,
    decreases t as int + 1, 0int,
{
    let cs = type_children(ts[t as int]);
    lemma_walk_list_in_range(ts, cs, t as int);
    let w = walk_seq(ts, t);
    let wl = walk_list(ts, cs, t as int);
    assert(w == seq![t] + wl);
    assert forall|j: int| 0 <= j < w.len() implies (#[trigger] w[j] as int) < ts.len() by {
        if j > 0 {
            assert(w[j] == wl[j - 1]);
        }
    }
}

/// List companion of [`lemma_walk_in_range`].
pub proof fn lemma_walk_list_in_range(ts: Seq<Type>, s: Seq<usize>, bound: int)
    requires
        types_ordered(ts),
        0 <= bound <= ts.len(),
        forall|k: int| 0 <= k < s.len() ==> (#[trigger] s[k] as int) < bound,
    ensures
        forall|j: int| 0 <= j < walk_list(ts, s, bound).len() ==> (#[trigger] walk_list(
            ts,
            s,
            bound,
        )[j] as int) < ts.len(),
    decreases bound, s.len(),
{
    if s.len() == 0 {
    } else {
        lemma_walk_in_range(ts, s[0]);
        lemma_walk_list_in_range(ts, s.drop_first(), bound);
        let w0 = walk_seq(ts, s[0]);
        let wr = walk_list(ts, s.drop_first(), bound);
        let wl = walk_list(ts, s, bound);
        assert(wl == w0 + wr);
        assert forall|j: int| 0 <= j < wl.len() implies (#[trigger] wl[j] as int) < ts.len() by {
            if j < w0.len() {
                assert(wl[j] == w0[j]);
            } else {
                assert(wl[j] == wr[j - w0.len()]);
            }
        }
    }
}

/// A subtree is complete exactly when its walk holds no `Any` node.
pub proof fn lemma_complete_iff_walk_no_any(ts: Seq<Type>, t: usize)
    requires
        types_ordered(ts),
        (t as int) < ts.len(),
    ensures
        spec_complete(ts, t as int) <==> (forall|j: int|
            0 <= j < walk_seq(ts, t).len() ==> !(ts[#[trigger] walk_seq(ts, t)[j] as int] is Any)),
    decreases t as int + 1, 0int,
{
    let cs = type_children(ts[t as int]);
    lemma_complete_iff_walk_list_no_any(ts, cs, t as int);
    let w = walk_seq(ts, t);
    let wl = walk_list(ts, cs, t as int);
    assert(w == seq![t] + wl);
    assert forall|j: int| 0 <= j < w.len() implies w[j] == if j == 0 {
        t
    } else {
        wl[j - 1]
    } by {}
    if spec_complete(ts, t as int) {
        assert forall|j: int| 0 <= j < w.len() implies !(ts[#[trigger] w[j] as int] is Any) by {
            if j > 0 {
                assert(wl[j - 1] == w[j]);
            }
        }
    } else {
        if ts[t as int] is Any {
            assert(w[0] == t);
        } else {
            let j = choose|j: int|
                0 <= j < cs.len() && !spec_complete(ts, #[trigger] cs[j] as int);
            assert(!(forall|k: int|
                0 <= k < wl.len() ==> !(ts[#[trigger] wl[k] as int] is Any)));
            let k = choose|k: int| 0 <= k < wl.len() && ts[#[trigger] wl[k] as int] is Any;
            assert(w[k + 1] == wl[k]);
        }
    }
}

/// List companion of [`lemma_complete_iff_walk_no_any`].
pub proof fn lemma_complete_iff_walk_list_no_any(ts: Seq<Type>, s: Seq<usize>, bound: int)
    requires
        types_ordered(ts),
        0 <= bound <= ts.len(),
        forall|k: int| 0 <= k < s.len() ==> (#[trigger] s[k] as int) < bound,
    ensures
        (forall|k: int| 0 <= k < s.len() ==> spec_complete(ts, #[trigger] s[k] as int)) <==> (
        forall|j: int| 0 <= j < walk_list(ts, s, bound).len() ==> !(ts[#[trigger] walk_list(
            ts,
            s,
            bound,
        )[j] as int] is Any)),
    decreases bound, s.len(),
{
    if s.len() == 0 {
    } else {
        let rest = s.drop_first();
        lemma_complete_iff_walk_no_any(ts, s[0]);
        lemma_complete_iff_walk_list_no_any(ts, rest, bound);
        let w0 = walk_seq(ts, s[0]);
        let wr = walk_list(ts, rest, bound);
        let wl = walk_list(ts, s, bound);
        assert(wl == w0 + wr);
        lemma_walk_in_range(ts, s[0]);
        if (forall|k: int| 0 <= k < s.len() ==> spec_complete(ts, #[trigger] s[k] as int)) {
            assert(forall|k: int| 0 <= k < rest.len() ==> rest[k] == s[k + 1]);
            assert forall|j: int| 0 <= j < wl.len() implies !(ts[#[trigger] wl[j] as int] is Any) by {
                if j < w0.len() {
                    assert(wl[j] == w0[j]);
                } else {
                    assert(wl[j] == wr[j - w0.len()]);
                }
            }
        } else {
            let k = choose|k: int| 0 <= k < s.len() && !spec_complete(ts, #[trigger] s[k] as int);
            if k == 0 {
                let j = choose|j: int| 0 <= j < w0.len() && ts[#[trigger] w0[j] as int] is Any;
                assert(wl[j] == w0[j]);
            } else {
                assert(rest[k - 1] == s[k]);
                assert(!(forall|kk: int|
                    0 <= kk < rest.len() ==> spec_complete(ts, #[trigger] rest[kk] as int)));
                let j = choose|j: int| 0 <= j < wr.len() && ts[#[trigger] wr[j] as int] is Any;
                assert(wl[w0.len() + j] == wr[j]);
            }
        }
    }
}

/// One step of `Seq::filter` over a prefix of a sequence.
pub proof fn lemma_filter_step<A>(s: Seq<A>, pred: spec_fn(A) -> bool, i: int)
    requires
        0 <= i < s.len(),
    ensures
        s.take(i + 1).filter(pred) == if pred(s[i]) {
            s.take(i).filter(pred).push(s[i])
        } else {
            s.take(i).filter(pred)
        },
{
    reveal(Seq::filter);
    assert(s.take(i + 1).drop_last() =~= s.take(i));
    assert(s.take(i + 1).last() == s[i]);
}

/// A filtered sequence is empty exactly when nothing satisfies the
/// predicate.
pub proof fn lemma_filter_empty_iff<A>(s: Seq<A>, pred: spec_fn(A) -> bool)
    ensures
        (s.filter(pred).len() == 0) <==> (forall|j: int| 0 <= j < s.len() ==> !pred(#[trigger] s[j])),
    decreases s.len(),
{
    reveal(Seq::filter);
    if s.len() == 0 {
    } else {
        lemma_filter_empty_iff(s.drop_last(), pred);
        assert(forall|j: int| 0 <= j < s.len() - 1 ==> s.drop_last()[j] == #[trigger] s[j]);
        if forall|j: int| 0 <= j < s.len() ==> !pred(#[trigger] s[j]) {
            assert(!pred(s.last()));
        }
    }
}

/// The predicate selecting `Any` nodes of the arena.
pub open spec fn is_any_pred(ts: Seq<Type>) -> spec_fn(usize) -> bool {
    |u: usize| ts[u as int] is Any
}

/// The predicate selecting anonymous type-inst variable nodes.
pub open spec fn is_anon_var_pred(ts: Seq<Type>) -> spec_fn(usize) -> bool {
    |u: usize| ts[u as int] is AnonymousTypeInstVar
}

/// The predicate selecting operation nodes.
pub open spec fn is_operation_pred(ts: Seq<Type>) -> spec_fn(usize) -> bool {
    |u: usize| ts[u as int] is Operation
}

/// The predicate selecting primitive nodes.
pub open spec fn is_primitive_pred(ts: Seq<Type>) -> spec_fn(usize) -> bool {
    |u: usize| ts[u as int] is Primitive
}

/// The predicate selecting bounded nodes.
pub open spec fn is_bounded_pred(ts: Seq<Type>) -> spec_fn(usize) -> bool {
    |u: usize| ts[u as int] is Bounded
}

/// The domain expression of a bounded node (meaningful only there).
pub open spec fn domain_of(ts: Seq<Type>, u: usize) -> usize {
    match ts[u as int] {
        Type::Bounded { domain, .. } => domain,
        _ => 0,
    }
}

/// A subtree is complete exactly when the walk filtered to `Any` nodes is
/// empty; this ties [`Type::is_complete`] to [`Type::any_types`].
pub proof fn lemma_is_complete_iff_no_any(ts: Seq<Type>, t: usize)
    requires
        types_ordered(ts),
        (t as int) < ts.len(),
    ensures
        spec_complete(ts, t as int) <==> walk_seq(ts, t).filter(is_any_pred(ts)).len() == 0,
{
    lemma_complete_iff_walk_no_any(ts, t);
    lemma_filter_empty_iff(walk_seq(ts, t), is_any_pred(ts));
}

impl Type {
    /// The child type nodes, in declaration order.
    pub fn children(&self) -> (r: Vec<usize>)
        ensures
            r@ == type_children(*self),
    {
        let mut r: Vec<usize> = Vec::new();
        match self {
            Type::Array { dimensions, element, .. } => {
                r.push(*dimensions);
                r.push(*element);
                proof {
                    assert(r@ =~= type_children(*self));
                }
            },
            Type::SetOf { element, .. } => {
                r.push(*element);
                proof {
                    assert(r@ =~= type_children(*self));
                }
            },
            Type::Tuple { fields, .. } => {
                let mut i: usize = 0;
                while i < fields.len()
                    invariant
                        i <= fields@.len(),
                        r@ == fields@.take(i as int),
                    decreases fields@.len() - i,
                {
                    r.push(fields[i]);
                    proof {
                        assert(r@ =~= fields@.take(i + 1 as int));
                    }
                    i = i + 1;
                }
                proof {
                    assert(r@ =~= type_children(*self));
                }
            },
            Type::Record { fields, .. } => {
                let ghost cs = type_children(*self);
                let mut i: usize = 0;
                while i < fields.len()
                    invariant
                        i <= fields@.len(),
                        cs == type_children(*self),
                        cs == fields@.map_values(|p: (usize, usize)| p.1),
                        r@ == cs.take(i as int),
                    decreases fields@.len() - i,
                {
                    r.push(fields[i].1);
                    proof {
                        assert(r@ =~= cs.take(i + 1 as int));
                    }
                    i = i + 1;
                }
                proof {
                    assert(r@ =~= type_children(*self));
                }
            },
            Type::Operation { return_type, parameter_types, .. } => {
                let ghost cs = type_children(*self);
                r.push(*return_type);
                let mut i: usize = 0;
                while i < parameter_types.len()
                    invariant
                        i <= parameter_types@.len(),
                        cs == type_children(*self),
                        cs == seq![*return_type] + parameter_types@,
                        r@ == cs.take(i + 1 as int),
                    decreases parameter_types@.len() - i,
                {
                    r.push(parameter_types[i]);
                    proof {
                        assert(r@ =~= cs.take(i + 2 as int));
                    }
                    i = i + 1;
                }
                proof {
                    assert(r@ =~= type_children(*self));
                }
            },
            _ => {
                proof {
                    assert(r@ =~= type_children(*self));
                }
            },
        }
        r
    }

    /// Whether or not this type is completely known: `false` exactly when
    /// the subtree rooted at `t` contains an `Any` node. The `Missing`
    /// sentinel counts as complete.
    pub fn is_complete(t: usize, data: &ItemData) -> (r: bool)
        requires
            types_ordered(data.types@),
            (t as int) < data.types@.len(),
        ensures
            r == spec_complete(data.types@, t as int),
        decreases t,
    {
        let ghost ts = data.types@;
        if matches!(&data.types[t], Type::Any) {
            return false;
        }
        let children = data.types[t].children();
        let ghost cs = type_children(ts[t as int]);
        let mut i: usize = 0;
        let mut ok: bool = true;
        while i < children.len()
            invariant
                types_ordered(ts),
                ts == data.types@,
                (t as int) < ts.len(),
                children@ == cs,
                cs == type_children(ts[t as int]),
                i <= cs.len(),
                type_children_below(ts[t as int], t as int),
                ok == forall|j: int| 0 <= j < i ==> spec_complete(ts, #[trigger] cs[j] as int),
            decreases cs.len() - i,
        {
            proof {
                assert(cs[i as int] < t);
            }
            let c = Type::is_complete(children[i], data);
            ok = ok && c;
            i = i + 1;
        }
        ok
    }

    /// The nodes of the subtree rooted at `t`, depth-first in preorder,
    /// children in declaration order.
    pub fn walk(t: usize, data: &ItemData) -> (r: Vec<usize>)
        requires
            types_ordered(data.types@),
            types_tree_shaped(data.types@),
            (t as int) < data.types@.len(),
        ensures
            r@ == walk_seq(data.types@, t),
        decreases t,
    {
        let ghost ts = data.types@;
        let children = data.types[t].children();
        let ghost cs = type_children(ts[t as int]);
        let mut out: Vec<usize> = Vec::new();
        out.push(t);
        let mut i: usize = 0;
        proof {
            assert(cs.skip(0) =~= cs);
            assert(out@ =~= seq![t]);
        }
        while i < children.len()
            invariant
                types_ordered(ts),
                types_tree_shaped(ts),
                ts == data.types@,
                (t as int) < ts.len(),
                children@ == cs,
                cs == type_children(ts[t as int]),
                i <= cs.len(),
                type_children_below(ts[t as int], t as int),
                walk_seq(ts, t) == out@ + walk_list(ts, cs.skip(i as int), t as int),
            decreases cs.len() - i,
        {
            proof {
                assert(cs[i as int] < t);
            }
            let mut sub = Type::walk(children[i], data);
            proof {
                let tail = cs.skip(i as int);
                assert(tail[0] == cs[i as int]);
                assert(tail.drop_first() =~= cs.skip(i + 1));
                assert(walk_list(ts, tail, t as int) == walk_seq(ts, cs[i as int]) + walk_list(
                    ts,
                    cs.skip(i + 1),
                    t as int,
                ));
                assert((out@ + walk_list(ts, tail, t as int)) =~= (out@ + sub@) + walk_list(
                    ts,
                    cs.skip(i + 1),
                    t as int,
                ));
            }
            out.append(&mut sub);
            i = i + 1;
        }
        proof {
            assert(cs.skip(cs.len() as int) =~= Seq::<usize>::empty());
            assert(walk_list(ts, cs.skip(cs.len() as int), t as int) =~= Seq::<usize>::empty());
            assert(out@ + Seq::<usize>::empty() =~= out@);
        }
        out
    }

    /// Return the `any` types in the given type.
    pub fn any_types(t: usize, data: &ItemData) -> (r: Vec<usize>)
        requires
            types_ordered(data.types@),
            types_tree_shaped(data.types@),
            (t as int) < data.types@.len(),
        ensures
            r@ == walk_seq(data.types@, t).filter(is_any_pred(data.types@)),
    {
        let ghost ts = data.types@;
        let w = Type::walk(t, data);
        proof {
            lemma_walk_in_range(ts, t);
        }
        let ghost pred = is_any_pred(ts);
        let mut r: Vec<usize> = Vec::new();
        let mut i: usize = 0;
        while i < w.len()
            invariant
                ts == data.types@,
                w@ == walk_seq(ts, t),
                pred == is_any_pred(ts),
                forall|j: int| 0 <= j < w@.len() ==> (#[trigger] w@[j] as int) < ts.len(),
                i <= w@.len(),
                r@ == w@.take(i as int).filter(pred),
            decreases w@.len() - i,
        {
            proof {
                lemma_filter_step(w@, pred, i as int);
            }
            if matches!(&data.types[w[i]], Type::Any) {
                r.push(w[i]);
            }
            i = i + 1;
        }
        proof {
            assert(w@.take(w@.len() as int) =~= w@);
        }
        r
    }

    /// Return the anonymous type-inst variables in the given type.
    pub fn anonymous_ty_vars(t: usize, data: &ItemData) -> (r: Vec<usize>)
        requires
            types_ordered(data.types@),
            types_tree_shaped(data.types@),
            (t as int) < data.types@.len(),
        ensures
            r@ == walk_seq(data.types@, t).filter(is_anon_var_pred(data.types@)),
    {
        let ghost ts = data.types@;
        let w = Type::walk(t, data);
        proof {
            lemma_walk_in_range(ts, t);
        }
        let ghost pred = is_anon_var_pred(ts);
        let mut r: Vec<usize> = Vec::new();
        let mut i: usize = 0;
        while i < w.len()
            invariant
                ts == data.types@,
                w@ == walk_seq(ts, t),
                pred == is_anon_var_pred(ts),
                forall|j: int| 0 <= j < w@.len() ==> (#[trigger] w@[j] as int) < ts.len(),
                i <= w@.len(),
                r@ == w@.take(i as int).filter(pred),
            decreases w@.len() - i,
        {
            proof {
                lemma_filter_step(w@, pred, i as int);
            }
            if matches!(&data.types[w[i]], Type::AnonymousTypeInstVar { .. }) {
                r.push(w[i]);
            }
            i = i + 1;
        }
        proof {
            assert(w@.take(w@.len() as int) =~= w@);
        }
        r
    }

    /// Return the operation types in the given type.
    pub fn operations(t: usize, data: &ItemData) -> (r: Vec<usize>)
        requires
            types_ordered(data.types@),
            types_tree_shaped(data.types@),
            (t as int) < data.types@.len(),
        ensures
            r@ == walk_seq(data.types@, t).filter(is_operation_pred(data.types@)),
    {
        let ghost ts = data.types@;
        let w = Type::walk(t, data);
        proof {
            lemma_walk_in_range(ts, t);
        }
        let ghost pred = is_operation_pred(ts);
        let mut r: Vec<usize> = Vec::new();
        let mut i: usize = 0;
        while i < w.len()
            invariant
                ts == data.types@,
                w@ == walk_seq(ts, t),
                pred == is_operation_pred(ts),
                forall|j: int| 0 <= j < w@.len() ==> (#[trigger] w@[j] as int) < ts.len(),
                i <= w@.len(),
                r@ == w@.take(i as int).filter(pred),
            decreases w@.len() - i,
        {
            proof {
                lemma_filter_step(w@, pred, i as int);
            }
            if matches!(&data.types[w[i]], Type::Operation { .. }) {
                r.push(w[i]);
            }
            i = i + 1;
        }
        proof {
            assert(w@.take(w@.len() as int) =~= w@);
        }
        r
    }

    /// Get the unbounded primitive types in this type.
    pub fn primitives(t: usize, data: &ItemData) -> (r: Vec<usize>)
        requires
            types_ordered(data.types@),
            types_tree_shaped(data.types@),
            (t as int) < data.types@.len(),
        ensures
            r@ == walk_seq(data.types@, t).filter(is_primitive_pred(data.types@)),
    {
        let ghost ts = data.types@;
        let w = Type::walk(t, data);
        proof {
            lemma_walk_in_range(ts, t);
        }
        let ghost pred = is_primitive_pred(ts);
        let mut r: Vec<usize> = Vec::new();
        let mut i: usize = 0;
        while i < w.len()
            invariant
                ts == data.types@,
                w@ == walk_seq(ts, t),
                pred == is_primitive_pred(ts),
                forall|j: int| 0 <= j < w@.len() ==> (#[trigger] w@[j] as int) < ts.len(),
                i <= w@.len(),
                r@ == w@.take(i as int).filter(pred),
            decreases w@.len() - i,
        {
            proof {
                lemma_filter_step(w@, pred, i as int);
            }
            if matches!(&data.types[w[i]], Type::Primitive { .. }) {
                r.push(w[i]);
            }
            i = i + 1;
        }
        proof {
            assert(w@.take(w@.len() as int) =~= w@);
        }
        r
    }

    /// Get the expressions (bounds) contained in this type: the domain
    /// expression of every bounded node of the walk, in walk order.
    pub fn expressions(t: usize, data: &ItemData) -> (r: Vec<usize>)
        requires
            types_ordered(data.types@),
            types_tree_shaped(data.types@),
            (t as int) < data.types@.len(),
        ensures
            r@ == walk_seq(data.types@, t).filter(is_bounded_pred(data.types@)).map_values(
                |u: usize| domain_of(data.types@, u),
            ),
    {
        let ghost ts = data.types@;
        let w = Type::walk(t, data);
        proof {
            lemma_walk_in_range(ts, t);
        }
        let ghost pred = is_bounded_pred(ts);
        let ghost dom = |u: usize| domain_of(ts, u);
        let mut r: Vec<usize> = Vec::new();
        let mut i: usize = 0;
        while i < w.len()
            invariant
                ts == data.types@,
                w@ == walk_seq(ts, t),
                pred == is_bounded_pred(ts),
                dom == (|u: usize| domain_of(ts, u)),
                forall|j: int| 0 <= j < w@.len() ==> (#[trigger] w@[j] as int) < ts.len(),
                i <= w@.len(),
                r@ == w@.take(i as int).filter(pred).map_values(dom),
            decreases w@.len() - i,
        {
            proof {
                lemma_filter_step(w@, pred, i as int);
                if pred(w@[i as int]) {
                    assert(w@.take(i + 1 as int).filter(pred).map_values(dom) =~= w@.take(
                        i as int,
                    ).filter(pred).map_values(dom).push(dom(w@[i as int])));
                } else {
                    assert(w@.take(i + 1 as int).filter(pred).map_values(dom) =~= w@.take(
                        i as int,
                    ).filter(pred).map_values(dom));
                }
            }
            if let Type::Bounded { domain, .. } = &data.types[w[i]] {
                r.push(*domain);
            }
            i = i + 1;
        }
        proof {
            assert(w@.take(w@.len() as int) =~= w@);
        }
        r
    }
}

} // verus!

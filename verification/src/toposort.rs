//! Dependency ordering of signatures.
//!
//! Typing an item's signature may need the signatures of the items its
//! declared types mention. [`dependency_order`] computes an order that
//! satisfies those dependencies wherever no real cycle exists, and
//! flags the items of real cycles instead of silently reordering them.
//! Downstream typing still works for any order — the `Computing`
//! sentinel guard is the last line of defence — so this ordering only
//! avoids redundant recomputation and reports cycles early.
//!
//! [`topological_sort`] carries the proved contract: the order it
//! produces respects every edge among ordered items, the ordered and
//! flagged items partition the item set, and every flagged item
//! depends on another flagged item — the flagged set is never merely
//! left over.

use vstd::prelude::*;

use crate::model::{Expression, ItemData, ItemKind, Model, Parameter, Pattern};
use crate::types::Type;

verus! {

/// Whenever an ordered item depends on something, that dependency
/// stands earlier in the order.
pub open spec fn respects_edges(order: Seq<usize>, edges: Seq<(usize, usize)>) -> bool {
    forall|j: int, k: int|
        0 <= j < order.len() && 0 <= k < edges.len() && (#[trigger] edges[k]).0 == (
        #[trigger] order[j]) ==> exists|j2: int| 0 <= j2 < j && order[j2] == edges[k].1
}

/// Some edge leads from `x` to an element of `s`.
pub open spec fn depends_within(edges: Seq<(usize, usize)>, s: Seq<usize>, x: usize) -> bool {
    exists|k: int| 0 <= k < edges.len() && (#[trigger] edges[k]).0 == x && occurs(s, edges[k].1)
}

/// The element occurs in the sequence.
pub open spec fn occurs(s: Seq<usize>, x: usize) -> bool {
    exists|i: int| 0 <= i < s.len() && s[i] == x
}

/// How many positions of the sequence hold `false`.
pub open spec fn count_false(s: Seq<bool>) -> nat
    decreases s.len(),
{
    if s.len() == 0 {
        0
    } else {
        count_false(s.drop_last()) + if s.last() {
            0nat
        } else {
            1nat
        }
    }
}

/// Setting a `false` position to `true` lowers the count.
proof fn lemma_count_false_update(s: Seq<bool>, i: int)
    requires
        0 <= i < s.len(),
        !s[i],
    ensures
        count_false(s.update(i, true)) < count_false(s),
    decreases s.len(),
{
    let t = s.update(i, true);
    if i == s.len() - 1 {
        assert(t.drop_last() =~= s.drop_last());
    } else {
        assert(t.drop_last() =~= s.drop_last().update(i, true));
        assert(s.drop_last()[i] == s[i]);
        lemma_count_false_update(s.drop_last(), i);
        assert(t.last() == s.last());
    }
}

/// Order interdependent nodes.
///
/// `edges` holds pairs `(a, b)` meaning `a` depends on `b`; both ends
/// lie below `n`. The first answer lists the nodes that could be
/// ordered, each after all its dependencies; the second lists the
/// nodes that could not be, because they lie on or depend on a
/// dependency cycle. Every node lands in exactly one of the two, and
/// every flagged node depends on a flagged node — the witness that
/// the flagged set really is cyclic.
pub fn topological_sort(n: usize, edges: &Vec<(usize, usize)>) -> (r: (Vec<usize>, Vec<usize>))
    requires
        forall|k: int|
            0 <= k < edges@.len() ==> (#[trigger] edges@[k]).0 < n && edges@[k].1 < n,
    ensures
        respects_edges(r.0@, edges@),
        forall|x: usize| x < n ==> (occurs(r.0@, x) <==> !occurs(r.1@, x)),
        forall|i: int| 0 <= i < r.0@.len() ==> (#[trigger] r.0@[i]) < n,
        forall|i: int| 0 <= i < r.1@.len() ==> (#[trigger] r.1@[i]) < n,
        forall|i: int, j: int| 0 <= i < j < r.0@.len() ==> r.0@[i] != r.0@[j],
        forall|i: int| 0 <= i < r.1@.len() ==> depends_within(edges@, r.1@, #[trigger] r.1@[i]),
{
    let mut order: Vec<usize> = Vec::new();
    let mut placed: Vec<bool> = Vec::new();
    let mut i: usize = 0;
    while i < n
        invariant
            placed@.len() == i,
            i <= n,
            forall|j: int| 0 <= j < i ==> !(#[trigger] placed@[j]),
        decreases n - i,
    {
        placed.push(false);
        i = i + 1;
    }
    // Repeatedly place a node whose dependencies are all placed, until
    // the remaining nodes all depend on remaining nodes
    loop
        invariant
            placed@.len() == n,
            forall|k: int|
                0 <= k < edges@.len() ==> (#[trigger] edges@[k]).0 < n && edges@[k].1 < n,
            forall|x: usize| x < n ==> (occurs(order@, x) <==> placed@[x as int]),
            forall|i2: int| 0 <= i2 < order@.len() ==> (#[trigger] order@[i2]) < n,
            forall|i2: int, j2: int| 0 <= i2 < j2 < order@.len() ==> order@[i2] != order@[j2],
            respects_edges(order@, edges@),
        ensures
            placed@.len() == n,
            forall|x: usize| x < n ==> (occurs(order@, x) <==> placed@[x as int]),
            forall|i2: int| 0 <= i2 < order@.len() ==> (#[trigger] order@[i2]) < n,
            forall|i2: int, j2: int| 0 <= i2 < j2 < order@.len() ==> order@[i2] != order@[j2],
            respects_edges(order@, edges@),
            forall|x: usize|
                x < n && !placed@[x as int] ==> exists|k: int|
                    0 <= k < edges@.len() && (#[trigger] edges@[k]).0 == x && !placed@[edges@[k].1 as int],
        decreases count_false(placed@),
    {
        // Find an unplaced node with every dependency placed
        let mut pick: Option<usize> = None;
        let mut c: usize = 0;
        while c < n
            invariant
                placed@.len() == n,
                c <= n,
                forall|k: int|
                    0 <= k < edges@.len() ==> (#[trigger] edges@[k]).0 < n && edges@[k].1 < n,
                pick matches Some(x) ==> x < n && !placed@[x as int] && (forall|k: int|
                    0 <= k < edges@.len() && (#[trigger] edges@[k]).0 == x
                        ==> placed@[edges@[k].1 as int]),
                pick is None ==> forall|c2: usize|
                    c2 < c && !placed@[c2 as int] ==> exists|k: int|
                        0 <= k < edges@.len() && (#[trigger] edges@[k]).0 == c2 && !placed@[edges@[k].1 as int],
            decreases n - c,
        {
            if pick.is_none() && !placed[c] {
                let mut deps_ok: bool = true;
                let mut k: usize = 0;
                while k < edges.len()
                    invariant
                        placed@.len() == n,
                        c < n,
                        k <= edges@.len(),
                        forall|k2: int|
                            0 <= k2 < edges@.len() ==> (#[trigger] edges@[k2]).0 < n
                                && edges@[k2].1 < n,
                        deps_ok == (forall|k2: int|
                            0 <= k2 < k && (#[trigger] edges@[k2]).0 == c
                                ==> placed@[edges@[k2].1 as int]),
                    decreases edges@.len() - k,
                {
                    if edges[k].0 == c && !placed[edges[k].1] {
                        deps_ok = false;
                    }
                    k = k + 1;
                }
                if deps_ok {
                    pick = Some(c);
                }
            }
            c = c + 1;
        }
        match pick {
            Some(x) => {
                let ghost order0 = order@;
                let ghost placed0 = placed@;
                order.push(x);
                let _ = placed.remove(x);
                placed.insert(x, true);
                proof {
                    assert(placed@ =~= placed0.update(x as int, true));
                    assert forall|x2: usize| x2 < n implies (occurs(order@, x2) <==> placed@[x2 as int]) by {
                        if x2 == x {
                            assert(order@[order@.len() - 1] == x);
                        } else {
                            if occurs(order@, x2) {
                                let i3 = choose|i3: int|
                                    0 <= i3 < order@.len() && order@[i3] == x2;
                                assert(order0[i3] == x2);
                                assert(occurs(order0, x2));
                            }
                            if occurs(order0, x2) {
                                let i3 = choose|i3: int|
                                    0 <= i3 < order0.len() && order0[i3] == x2;
                                assert(order@[i3] == x2);
                                assert(occurs(order@, x2));
                            }
                            assert(placed@[x2 as int] == placed0[x2 as int]);
                        }
                    }
                    assert(!occurs(order0, x));
                    assert forall|i2: int, j2: int|
                        0 <= i2 < j2 < order@.len() implies order@[i2] != order@[j2] by {
                        if j2 < order@.len() - 1 {
                            assert(order0[i2] == order@[i2]);
                            assert(order0[j2] == order@[j2]);
                        } else {
                            assert(order@[i2] == order0[i2]);
                            if order@[i2] == x {
                                assert(occurs(order0, x));
                            }
                        }
                    }
                    assert forall|j: int, k: int|
                        0 <= j < order@.len() && 0 <= k < edges@.len() && (#[trigger] edges@[k]).0
                            == (#[trigger] order@[j]) implies exists|j2: int|
                        0 <= j2 < j && order@[j2] == edges@[k].1 by {
                        if j < order@.len() - 1 {
                            assert(order0[j] == order@[j]);
                            assert(respects_edges(order0, edges@));
                            let j2 = choose|j2: int| 0 <= j2 < j && order0[j2] == edges@[k].1;
                            assert(order@[j2] == edges@[k].1);
                        } else {
                            let dep = edges@[k].1;
                            assert(placed0[dep as int]);
                            assert(occurs(order0, dep));
                            let j2 = choose|j2: int|
                                0 <= j2 < order0.len() && order0[j2] == dep;
                            assert(order@[j2] == dep);
                        }
                    }
                    lemma_count_false_update(placed0, x as int);
                }
            },
            None => {
                break ;
            },
        }
    }
    // Whatever could not be ordered belongs to a cycle
    let mut cyclic: Vec<usize> = Vec::new();
    let mut c: usize = 0;
    while c < n
        invariant
            placed@.len() == n,
            c <= n,
            forall|x: usize| x < n ==> (occurs(order@, x) <==> placed@[x as int]),
            forall|i2: int| 0 <= i2 < cyclic@.len() ==> (#[trigger] cyclic@[i2]) < c,
            forall|x: usize| x < c ==> (occurs(cyclic@, x) <==> !placed@[x as int]),
        decreases n - c,
    {
        if !placed[c] {
            let ghost cyc0 = cyclic@;
            cyclic.push(c);
            proof {
                assert forall|x: usize| x < c + 1 implies (occurs(cyclic@, x) <==> !placed@[x as int]) by {
                    if x == c {
                        assert(cyclic@[cyclic@.len() - 1] == c);
                    } else {
                        assert(occurs(cyclic@, x) == occurs(cyc0, x)) by {
                            if occurs(cyclic@, x) {
                                let i3 = choose|i3: int|
                                    0 <= i3 < cyclic@.len() && cyclic@[i3] == x;
                                if i3 < cyclic@.len() - 1 {
                                    assert(cyc0[i3] == x);
                                }
                            }
                            if occurs(cyc0, x) {
                                let i3 = choose|i3: int| 0 <= i3 < cyc0.len() && cyc0[i3] == x;
                                assert(cyclic@[i3] == x);
                            }
                        }
                    }
                }
            }
        } else {
            proof {
                assert forall|x: usize| x < c + 1 implies (occurs(cyclic@, x) <==> !placed@[x as int]) by {
                    if x == c {
                        if occurs(cyclic@, x) {
                            let i3 = choose|i3: int| 0 <= i3 < cyclic@.len() && cyclic@[i3] == x;
                        }
                    }
                }
            }
        }
        c = c + 1;
    }
    proof {
        assert forall|i2: int| 0 <= i2 < cyclic@.len() implies depends_within(
            edges@,
            cyclic@,
            #[trigger] cyclic@[i2],
        ) by {
            let x = cyclic@[i2];
            assert(occurs(cyclic@, x));
            assert(!placed@[x as int]);
            let k = choose|k: int|
                0 <= k < edges@.len() && (#[trigger] edges@[k]).0 == x && !placed@[edges@[k].1 as int];
            assert(occurs(cyclic@, edges@[k].1));
        }
    }
    (order, cyclic)
}

/// Collect the names of all identifiers in an expression subtree.
fn expr_idents(data: &ItemData, e: usize, out: &mut Vec<u32>)
    requires
        crate::model::exprs_ordered(data.expressions@),
        (e as int) < data.expressions@.len(),
    decreases e,
{
    proof {
        assert(crate::model::expr_children_below(data.expressions@[e as int], e as int));
    }
    match &data.expressions[e] {
        Expression::Identifier(n) => {
            out.push(*n);
        },
        Expression::Call { function, arguments } => {
            let f = *function;
            let args = crate::typer::copy_indices(arguments);
            expr_idents(data, f, out);
            let mut i: usize = 0;
            while i < args.len()
                invariant
                    crate::model::exprs_ordered(data.expressions@),
                    (e as int) < data.expressions@.len(),
                    forall|k: int|
                        0 <= k < args@.len() ==> (#[trigger] args@[k] as int) < e,
                    i <= args@.len(),
                decreases args@.len() - i,
            {
                expr_idents(data, args[i], out);
                i = i + 1;
            }
        },
        Expression::TupleLiteral(es) => {
            let args = crate::typer::copy_indices(es);
            let mut i: usize = 0;
            while i < args.len()
                invariant
                    crate::model::exprs_ordered(data.expressions@),
                    (e as int) < data.expressions@.len(),
                    forall|k: int|
                        0 <= k < args@.len() ==> (#[trigger] args@[k] as int) < e,
                    i <= args@.len(),
                decreases args@.len() - i,
            {
                expr_idents(data, args[i], out);
                i = i + 1;
            }
        },
        Expression::ArrayLiteral(es) => {
            let args = crate::typer::copy_indices(es);
            let mut i: usize = 0;
            while i < args.len()
                invariant
                    crate::model::exprs_ordered(data.expressions@),
                    (e as int) < data.expressions@.len(),
                    forall|k: int|
                        0 <= k < args@.len() ==> (#[trigger] args@[k] as int) < e,
                    i <= args@.len(),
                decreases args@.len() - i,
            {
                expr_idents(data, args[i], out);
                i = i + 1;
            }
        },
        Expression::SetLiteral(es) => {
            let args = crate::typer::copy_indices(es);
            let mut i: usize = 0;
            while i < args.len()
                invariant
                    crate::model::exprs_ordered(data.expressions@),
                    (e as int) < data.expressions@.len(),
                    forall|k: int|
                        0 <= k < args@.len() ==> (#[trigger] args@[k] as int) < e,
                    i <= args@.len(),
                decreases args@.len() - i,
            {
                expr_idents(data, args[i], out);
                i = i + 1;
            }
        },
        Expression::TupleAccess { tuple, .. } => {
            let t = *tuple;
            expr_idents(data, t, out);
        },
        Expression::ArrayAccess { collection, index } => {
            let c = *collection;
            let ix = *index;
            expr_idents(data, c, out);
            expr_idents(data, ix, out);
        },
        _ => {},
    }
}

/// The declared-type indices of a parameter list.
fn param_types(v: &Vec<Parameter>) -> (r: Vec<usize>)
    ensures
        r@.len() == v@.len(),
        forall|k: int| 0 <= k < v@.len() ==> (#[trigger] r@[k]) == v@[k].declared_type,
{
    let mut r: Vec<usize> = Vec::new();
    let mut i: usize = 0;
    while i < v.len()
        invariant
            i <= v@.len(),
            r@.len() == i,
            forall|k: int| 0 <= k < i ==> (#[trigger] r@[k]) == v@[k].declared_type,
        decreases v@.len() - i,
    {
        r.push(v[i].declared_type);
        i = i + 1;
    }
    r
}

/// The first item whose declared pattern is the given name.
fn resolve_global_item(model: &Model, name: u32) -> (r: Option<usize>)
    requires
        model.wf(),
    ensures
        r matches Some(i) ==> (i as int) < model.items@.len()
            && model.items@[i as int].spec_has_signature(),
{
    let mut i: usize = 0;
    while i < model.items.len()
        invariant
            model.wf(),
            i <= model.items@.len(),
        decreases model.items@.len() - i,
    {
        let main: Option<usize> = match &model.items[i].kind {
            ItemKind::Declaration { pattern, .. } => Some(*pattern),
            ItemKind::Function { pattern, .. } => Some(*pattern),
            _ => None,
        };
        if let Some(pat) = main {
            proof {
                assert(model.items@[i as int].wf());
            }
            if let Pattern::Identifier(n) = &model.items[i].data.patterns[pat] {
                if *n == name {
                    return Some(i);
                }
            }
        }
        i = i + 1;
    }
    None
}

/// The names an item's signature depends on: identifiers in the domain
/// expressions of its declared types, and in its initialiser when the
/// declared type is incomplete and the initialiser must supply it.
fn signature_idents(data: &ItemData, kind: &ItemKind, out: &mut Vec<u32>)
    requires
        data.wf(),
        ({
            let d = *data;
            match *kind {
                ItemKind::Declaration { declared_type, definition, .. } => {
                    &&& (declared_type as int) < d.types@.len()
                    &&& (definition matches Some(x) ==> (x as int) < d.expressions@.len())
                },
                ItemKind::Function { return_type, parameters, .. } => {
                    &&& (return_type as int) < d.types@.len()
                    &&& forall|i: int|
                        0 <= i < parameters@.len() ==> ((#[trigger] parameters@[i]).declared_type
                            as int) < d.types@.len()
                },
                _ => true,
            }
        }),
{
    match kind {
        ItemKind::Declaration { declared_type, definition, .. } => {
            let dt = *declared_type;
            let def = *definition;
            let domains = Type::expressions(dt, data);
            let mut i: usize = 0;
            while i < domains.len()
                invariant
                    data.wf(),
                decreases domains@.len() - i,
            {
                if domains[i] < data.expressions.len() {
                    expr_idents(data, domains[i], out);
                }
                i = i + 1;
            }
            if !Type::is_complete(dt, data) {
                if let Some(de) = def {
                    expr_idents(data, de, out);
                }
            }
        },
        ItemKind::Function { return_type, parameters, .. } => {
            let rt = *return_type;
            let params = param_types(parameters);
            let domains = Type::expressions(rt, data);
            let mut i: usize = 0;
            while i < domains.len()
                invariant
                    data.wf(),
                decreases domains@.len() - i,
            {
                if domains[i] < data.expressions.len() {
                    expr_idents(data, domains[i], out);
                }
                i = i + 1;
            }
            let mut j: usize = 0;
            while j < params.len()
                invariant
                    data.wf(),
                    forall|k: int|
                        0 <= k < params@.len() ==> (#[trigger] params@[k] as int)
                            < data.types@.len(),
                decreases params@.len() - j,
            {
                let domains2 = Type::expressions(params[j], data);
                let mut i2: usize = 0;
                while i2 < domains2.len()
                    invariant
                        data.wf(),
                    decreases domains2@.len() - i2,
                {
                    if domains2[i2] < data.expressions.len() {
                        expr_idents(data, domains2[i2], out);
                    }
                    i2 = i2 + 1;
                }
                j = j + 1;
            }
        },
        _ => {},
    }
}

/// Compute a processing order for the model's signature-bearing items:
/// the ordered items, each after the items its signature mentions, and
/// the items whose signatures are cyclically interdependent. The ghost
/// component names the dependency edges the order was computed over, so
/// a caller can state the order's properties against them.
pub fn dependency_order(model: &Model) -> (r: (Vec<usize>, Vec<usize>, Ghost<Seq<(usize, usize)>>))
    requires
        model.wf(),
    ensures
        forall|x: usize|
            (x as int) < model.items@.len() ==> (occurs(r.0@, x) <==> !occurs(r.1@, x)),
        forall|i: int| 0 <= i < r.0@.len() ==> ((#[trigger] r.0@[i]) as int) < model.items@.len(),
        forall|i: int| 0 <= i < r.1@.len() ==> ((#[trigger] r.1@[i]) as int) < model.items@.len(),
        forall|i: int, j: int| 0 <= i < j < r.0@.len() ==> r.0@[i] != r.0@[j],
        respects_edges(r.0@, r.2@),
        forall|i: int| 0 <= i < r.1@.len() ==> depends_within(r.2@, r.1@, #[trigger] r.1@[i]),
        forall|k: int|
            0 <= k < r.2@.len() ==> ((#[trigger] r.2@[k]).0 as int) < model.items@.len() && (
            r.2@[k].1 as int) < model.items@.len() && r.2@[k].0 != r.2@[k].1
                && model.items@[r.2@[k].1 as int].spec_has_signature(),
{
    let n = model.items.len();
    let mut edges: Vec<(usize, usize)> = Vec::new();
    let mut i: usize = 0;
    while i < n
        invariant
            model.wf(),
            n == model.items@.len(),
            i <= n,
            forall|k: int|
                0 <= k < edges@.len() ==> (#[trigger] edges@[k]).0 < n && edges@[k].1 < n
                    && edges@[k].0 != edges@[k].1 && model.items@[edges@[k].1 as int].spec_has_signature(),
        decreases n - i,
    {
        proof {
            assert(model.items@[i as int].wf());
        }
        let mut names: Vec<u32> = Vec::new();
        signature_idents(&model.items[i].data, &model.items[i].kind, &mut names);
        let mut k: usize = 0;
        while k < names.len()
            invariant
                model.wf(),
                n == model.items@.len(),
                i < n,
                k <= names@.len(),
                forall|k2: int|
                    0 <= k2 < edges@.len() ==> (#[trigger] edges@[k2]).0 < n && edges@[k2].1 < n
                        && edges@[k2].0 != edges@[k2].1
                        && model.items@[edges@[k2].1 as int].spec_has_signature(),
            decreases names@.len() - k,
        {
            if let Some(j) = resolve_global_item(model, names[k]) {
                if j != i {
                    edges.push((i, j));
                }
            }
            k = k + 1;
        }
        i = i + 1;
    }
    let (order, cyclic) = topological_sort(n, &edges);
    (order, cyclic, Ghost(edges@))
}

} // verus!

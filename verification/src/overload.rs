//! Overload resolution.
//!
//! Given the candidate overloads sharing a name and the types of the
//! call's arguments, resolution selects the most specific applicable
//! candidate under the subtyping lattice:
//!
//! - a candidate is *applicable* when it has one parameter per argument
//!   and every argument type is a subtype of its parameter type;
//! - a candidate is *best* when it is applicable and its parameter list
//!   is pointwise a subtype of every other applicable candidate's.
//!
//! Resolution answers with the unique best candidate; with
//! [`OverloadResult::NoMatching`] when nothing is applicable; and with
//! [`OverloadResult::Ambiguous`] when several candidates are best (or
//! none is comparable to all others), never picking one arbitrarily.

use vstd::prelude::*;

use crate::ty::{spec_subtype, FunctionEntry, Interner, Ty, TyData};

verus! {

/// The outcome of overload resolution.
#[derive(Clone, Copy, Debug, PartialEq, Eq, Structural)]
pub enum OverloadResult {
    /// Exactly one maximally specific candidate matched: its index
    Selected(usize),
    /// No candidate accepts the argument types
    NoMatching,
    /// More than one maximally specific candidate matches, or no
    /// applicable candidate is comparable to all others
    Ambiguous,
}

/// The candidate has one parameter per argument and every argument type
/// is a subtype of its parameter type.
pub open spec fn spec_applicable(d: Seq<TyData>, c: FunctionEntry, args: Seq<Ty>) -> bool {
    &&& c.overload.params@.len() == args.len()
    &&& forall|i: int|
        0 <= i < args.len() ==> spec_subtype(
            d,
            (#[trigger] args[i]).0 as int,
            c.overload.params@[i].0 as int,
        )
}

/// `a`'s parameter list is pointwise a subtype of `b`'s: `a` is at least
/// as specific as `b`.
pub open spec fn spec_entry_le(d: Seq<TyData>, a: FunctionEntry, b: FunctionEntry) -> bool {
    &&& a.overload.params@.len() == b.overload.params@.len()
    &&& forall|i: int|
        0 <= i < a.overload.params@.len() ==> spec_subtype(
            d,
            (#[trigger] a.overload.params@[i]).0 as int,
            b.overload.params@[i].0 as int,
        )
}

/// Candidate `i` is applicable and at least as specific as every other
/// applicable candidate.
pub open spec fn spec_best(d: Seq<TyData>, cs: Seq<FunctionEntry>, args: Seq<Ty>, i: int) -> bool {
    &&& 0 <= i < cs.len()
    &&& spec_applicable(d, cs[i], args)
    &&& forall|j: int|
        0 <= j < cs.len() && spec_applicable(d, #[trigger] cs[j], args) ==> spec_entry_le(
            d,
            cs[i],
            cs[j],
        )
}

/// What resolution promises: `NoMatching` exactly when nothing is
/// applicable; a selected index is the unique best candidate; `Ambiguous`
/// exactly when something is applicable but no unique best exists.
pub open spec fn resolution_ok(
    d: Seq<TyData>,
    cs: Seq<FunctionEntry>,
    args: Seq<Ty>,
    r: OverloadResult,
) -> bool {
    &&& (r is NoMatching) <==> (forall|i: int|
        0 <= i < cs.len() ==> !spec_applicable(d, #[trigger] cs[i], args))
    &&& (r matches OverloadResult::Selected(i) ==> spec_best(d, cs, args, i as int) && (forall|
        j: int,
    |
        spec_best(d, cs, args, j) ==> j == i as int))
    &&& (r is Ambiguous ==> (exists|i: int|
        0 <= i < cs.len() && spec_applicable(d, #[trigger] cs[i], args)) && (forall|i: int|
        spec_best(d, cs, args, i) ==> exists|j: int| spec_best(d, cs, args, j) && j != i))
}

/// All parameter handles of the entry point into the arena.
pub open spec fn entry_tys_valid(d: Seq<TyData>, c: FunctionEntry) -> bool {
    &&& c.overload.return_type.0 < d.len()
    &&& forall|i: int|
        0 <= i < c.overload.params@.len() ==> (#[trigger] c.overload.params@[i]).0 < d.len()
}

/// Whether the candidate is applicable to the argument types.
pub fn is_applicable(it: &Interner, c: &FunctionEntry, args: &Vec<Ty>) -> (r: bool)
    requires
        it.inv(),
        entry_tys_valid(it@, *c),
        forall|i: int| 0 <= i < args@.len() ==> (#[trigger] args@[i]).0 < it@.len(),
    ensures
        r == spec_applicable(it@, *c, args@),
{
    if c.overload.params.len() != args.len() {
        return false;
    }
    let mut i: usize = 0;
    let mut ok: bool = true;
    while i < args.len()
        invariant
            it.inv(),
            entry_tys_valid(it@, *c),
            forall|k: int| 0 <= k < args@.len() ==> (#[trigger] args@[k]).0 < it@.len(),
            c.overload.params@.len() == args@.len(),
            i <= args@.len(),
            ok == forall|k: int|
                0 <= k < i ==> spec_subtype(
                    it@,
                    (#[trigger] args@[k]).0 as int,
                    c.overload.params@[k].0 as int,
                ),
        decreases args@.len() - i,
    {
        let s = it.is_subtype(args[i], c.overload.params[i]);
        ok = ok && s;
        i = i + 1;
    }
    ok
}

/// Whether `a` is at least as specific as `b`.
pub fn entry_le(it: &Interner, a: &FunctionEntry, b: &FunctionEntry) -> (r: bool)
    requires
        it.inv(),
        entry_tys_valid(it@, *a),
        entry_tys_valid(it@, *b),
    ensures
        r == spec_entry_le(it@, *a, *b),
{
    if a.overload.params.len() != b.overload.params.len() {
        return false;
    }
    let mut i: usize = 0;
    let mut ok: bool = true;
    while i < a.overload.params.len()
        invariant
            it.inv(),
            entry_tys_valid(it@, *a),
            entry_tys_valid(it@, *b),
            a.overload.params@.len() == b.overload.params@.len(),
            i <= a.overload.params@.len(),
            ok == forall|k: int|
                0 <= k < i ==> spec_subtype(
                    it@,
                    (#[trigger] a.overload.params@[k]).0 as int,
                    b.overload.params@[k].0 as int,
                ),
        decreases a.overload.params@.len() - i,
    {
        let s = it.is_subtype(a.overload.params[i], b.overload.params[i]);
        ok = ok && s;
        i = i + 1;
    }
    ok
}

/// Select among candidate overloads by the argument types.
pub fn resolve_overload(it: &Interner, cs: &Vec<FunctionEntry>, args: &Vec<Ty>) -> (r:
    OverloadResult)
    requires
        it.inv(),
        forall|i: int| 0 <= i < cs@.len() ==> entry_tys_valid(it@, #[trigger] cs@[i]),
        forall|i: int| 0 <= i < args@.len() ==> (#[trigger] args@[i]).0 < it@.len(),
    ensures
        resolution_ok(it@, cs@, args@, r),
{
    let ghost d = it@;
    // Which candidates are applicable
    let mut app: Vec<bool> = Vec::new();
    let mut i: usize = 0;
    let mut any_app: bool = false;
    while i < cs.len()
        invariant
            it.inv(),
            d == it@,
            forall|k: int| 0 <= k < cs@.len() ==> entry_tys_valid(it@, #[trigger] cs@[k]),
            forall|k: int| 0 <= k < args@.len() ==> (#[trigger] args@[k]).0 < it@.len(),
            i <= cs@.len(),
            app@.len() == i,
            forall|k: int| 0 <= k < i ==> app@[k] == spec_applicable(d, cs@[k], args@),
            any_app == exists|k: int| 0 <= k < i && spec_applicable(d, #[trigger] cs@[k], args@),
        decreases cs@.len() - i,
    {
        let a = is_applicable(it, &cs[i], args);
        app.push(a);
        any_app = any_app || a;
        i = i + 1;
    }
    if !any_app {
        return OverloadResult::NoMatching;
    }
    // Which candidates are at least as specific as every applicable one
    let mut best_count: usize = 0;
    let mut best_index: usize = 0;
    let mut i: usize = 0;
    while i < cs.len()
        invariant
            it.inv(),
            d == it@,
            forall|k: int| 0 <= k < cs@.len() ==> entry_tys_valid(it@, #[trigger] cs@[k]),
            forall|k: int| 0 <= k < args@.len() ==> (#[trigger] args@[k]).0 < it@.len(),
            i <= cs@.len(),
            app@.len() == cs@.len(),
            forall|k: int| 0 <= k < cs@.len() ==> app@[k] == spec_applicable(d, cs@[k], args@),
            best_count <= i,
            best_count == 0 ==> forall|k: int| 0 <= k < i ==> !spec_best(d, cs@, args@, k),
            best_count >= 1 ==> best_index < i && spec_best(d, cs@, args@, best_index as int),
            best_count >= 1 ==> forall|k: int|
                0 <= k < i && spec_best(d, cs@, args@, k) && k != best_index as int ==> exists|
                    j: int,
                |
                    spec_best(d, cs@, args@, j) && j != k,
            best_count == 1 ==> forall|k: int|
                0 <= k < i && spec_best(d, cs@, args@, k) ==> k == best_index as int,
            best_count >= 2 ==> exists|k: int|
                0 <= k < i && spec_best(d, cs@, args@, k) && k != best_index as int,
        decreases cs@.len() - i,
    {
        let mut is_best_here: bool = app[i];
        if is_best_here {
            // Check this candidate against every applicable candidate
            let mut j: usize = 0;
            while j < cs.len()
                invariant
                    it.inv(),
                    d == it@,
                    forall|k: int| 0 <= k < cs@.len() ==> entry_tys_valid(it@, #[trigger] cs@[k]),
                    i < cs@.len(),
                    j <= cs@.len(),
                    app@.len() == cs@.len(),
                    forall|k: int|
                        0 <= k < cs@.len() ==> app@[k] == spec_applicable(d, cs@[k], args@),
                    spec_applicable(d, cs@[i as int], args@),
                    is_best_here == forall|k: int|
                        0 <= k < j && spec_applicable(d, #[trigger] cs@[k], args@)
                            ==> spec_entry_le(d, cs@[i as int], cs@[k]),
                decreases cs@.len() - j,
            {
                if app[j] {
                    let le = entry_le(it, &cs[i], &cs[j]);
                    is_best_here = is_best_here && le;
                } else {
                }
                j = j + 1;
            }
        }
        proof {
            if is_best_here {
                assert(spec_best(d, cs@, args@, i as int));
            } else {
                assert(!spec_best(d, cs@, args@, i as int));
            }
        }
        if is_best_here {
            if best_count == 0 {
                best_index = i;
            }
            best_count = best_count + 1;
        }
        i = i + 1;
    }
    if best_count == 1 {
        OverloadResult::Selected(best_index)
    } else {
        proof {
            if best_count == 0 {
                assert forall|k: int| spec_best(d, cs@, args@, k) implies exists|j: int|
                    spec_best(d, cs@, args@, j) && j != k by {}
            }
        }
        OverloadResult::Ambiguous
    }
}

/// A selected overload is applicable and at least as specific as every
/// applicable candidate: resolution never answers with anything less
/// than the most specific match.
pub proof fn lemma_selected_is_most_specific(
    d: Seq<TyData>,
    cs: Seq<FunctionEntry>,
    args: Seq<Ty>,
    r: OverloadResult,
    i: usize,
)
    requires
        resolution_ok(d, cs, args, r),
        r == OverloadResult::Selected(i),
    ensures
        spec_best(d, cs, args, i as int),
        forall|j: int|
            0 <= j < cs.len() && spec_applicable(d, #[trigger] cs[j], args) ==> spec_entry_le(
                d,
                cs[i as int],
                cs[j],
            ),
{
}

/// Two distinct best candidates force an ambiguous answer: resolution
/// never picks one of two equally specific applicable candidates.
pub proof fn lemma_equally_specific_is_ambiguous(
    d: Seq<TyData>,
    cs: Seq<FunctionEntry>,
    args: Seq<Ty>,
    r: OverloadResult,
    i: int,
    j: int,
)
    requires
        resolution_ok(d, cs, args, r),
        i != j,
        spec_best(d, cs, args, i),
        spec_best(d, cs, args, j),
    ensures
        r is Ambiguous,
{
    assert(spec_applicable(d, cs[i], args));
    match r {
        OverloadResult::NoMatching => {
            assert(false);
        },
        OverloadResult::Selected(k) => {
            assert(i == k as int);
            assert(j == k as int);
            assert(false);
        },
        OverloadResult::Ambiguous => {},
    }
}

} // verus!

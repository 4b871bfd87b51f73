//! Overload resolution over the subtyping lattice.

use typecheck::overload::{resolve_overload, OverloadResult};
use typecheck::registry::TypeRegistry;
use typecheck::ty::{FunctionEntry, FunctionType, Interner, Ty};

fn setup() -> (Interner, TypeRegistry) {
    let mut it = Interner::new();
    let reg = TypeRegistry::new(&mut it);
    (it, reg)
}

fn entry(params: Vec<Ty>, ret: Ty) -> FunctionEntry {
    FunctionEntry {
        has_body: false,
        overload: FunctionType {
            return_type: ret,
            params,
        },
    }
}

#[test]
fn par_argument_selects_par_overload() {
    let (it, reg) = setup();
    let cands = vec![
        entry(vec![reg.par_int], reg.par_int),
        entry(vec![reg.var_int], reg.var_int),
    ];
    // A fixed-value int fits both overloads; the par one is more specific
    let r = resolve_overload(&it, &cands, &vec![reg.par_int]);
    assert_eq!(r, OverloadResult::Selected(0));
}

#[test]
fn var_argument_selects_var_overload() {
    let (it, reg) = setup();
    let cands = vec![
        entry(vec![reg.par_int], reg.par_int),
        entry(vec![reg.var_int], reg.var_int),
    ];
    // A variable-value int only fits the var overload
    let r = resolve_overload(&it, &cands, &vec![reg.var_int]);
    assert_eq!(r, OverloadResult::Selected(1));
}

#[test]
fn unrelated_argument_matches_nothing() {
    let (it, reg) = setup();
    let cands = vec![
        entry(vec![reg.par_int], reg.par_int),
        entry(vec![reg.var_int], reg.var_int),
    ];
    let r = resolve_overload(&it, &cands, &vec![reg.string]);
    assert_eq!(r, OverloadResult::NoMatching);
}

#[test]
fn equally_specific_candidates_are_ambiguous() {
    let (it, reg) = setup();
    let cands = vec![
        entry(vec![reg.par_int], reg.par_int),
        entry(vec![reg.par_int], reg.par_bool),
    ];
    let r = resolve_overload(&it, &cands, &vec![reg.par_int]);
    assert_eq!(r, OverloadResult::Ambiguous);
}

#[test]
fn incomparable_candidates_are_ambiguous() {
    let (it, reg) = setup();
    // One more specific in the first parameter, the other in the second
    let cands = vec![
        entry(vec![reg.par_int, reg.var_int], reg.par_int),
        entry(vec![reg.var_int, reg.par_int], reg.par_int),
    ];
    let r = resolve_overload(&it, &cands, &vec![reg.par_int, reg.par_int]);
    assert_eq!(r, OverloadResult::Ambiguous);
}

#[test]
fn arity_must_match() {
    let (it, reg) = setup();
    let cands = vec![entry(vec![reg.par_int, reg.par_int], reg.par_int)];
    let r = resolve_overload(&it, &cands, &vec![reg.par_int]);
    assert_eq!(r, OverloadResult::NoMatching);
}

#[test]
fn single_applicable_candidate_wins() {
    let (it, reg) = setup();
    let cands = vec![
        entry(vec![reg.string], reg.par_bool),
        entry(vec![reg.var_int], reg.var_int),
    ];
    let r = resolve_overload(&it, &cands, &vec![reg.par_int]);
    assert_eq!(r, OverloadResult::Selected(1));
}
